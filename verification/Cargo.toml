[package]
name = "localhost"
version = "0.1.0"
edition = "2021"
publish = false

[dependencies]
http = "1"
libc = "0.2"
mio = { version = "1", features = ["net", "os-poll"] }
serde = { version = "1", features = ["derive"] }
serde_yaml = "0.9"
