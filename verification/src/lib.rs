pub mod config;
pub mod server;
pub mod text;
pub mod utils;
