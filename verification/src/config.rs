//! The configuration that is read from a file.

use crate::text::{decimal, push_decimal, push_str, string_of};
use std::collections::HashMap;
use vstd::prelude::*;

verus! {

/// What a configuration file says of a route.
#[derive(Debug, Clone)]
pub struct Route {
    pub methods: Vec<String>,
    pub root: String,
    pub cgi: Option<String>,
}

/// What a configuration file says of the server.
#[derive(Debug, Clone)]
pub struct Config {
    pub host: String,
    pub ports: Vec<u16>,
    pub error_pages: HashMap<String, String>,
    pub routes: HashMap<String, Route>,
}

impl Config {
    /// The address that the server binds: the host, a colon, the first
    /// port; nothing where no port is given.
    pub open spec fn address(self) -> Option<Seq<char>> {
        if self.ports@.len() > 0 {
            Some(self.host@ + ":"@ + decimal(self.ports@[0] as nat))
        } else {
            None
        }
    }

    /// The address that the server binds.
    pub fn bind_address(&self) -> (r: Option<String>)
        ensures
            r.deep_view() == self.address(),
    {
        if self.ports.len() == 0 {
            return None;
        }
        let mut out: Vec<char> = Vec::new();
        push_str(&mut out, self.host.as_str());
        push_str(&mut out, ":");
        push_decimal(&mut out, self.ports[0] as u64);
        Some(string_of(out.as_slice()))
    }
}

} // verus!
