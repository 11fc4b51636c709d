//! Configuration of the HTTP REST API server; the server itself lives at
//! the edge.

use vstd::prelude::*;

verus! {

/// An IPv4 address, most significant octet first.
#[derive(Clone, Copy, PartialEq, Eq, Structural, Debug)]
pub struct Ipv4 {
    pub a: u8,
    pub b: u8,
    pub c: u8,
    pub d: u8,
}

/// The REST API listen configuration.
#[derive(Clone, Copy, PartialEq, Eq, Structural, Debug)]
pub struct Config {
    /// Enable the REST API server.
    pub enabled: bool,
    /// The IPv4 address the server listens on.
    pub listen_address: Ipv4,
    /// The port the server listens on.
    pub port: u16,
}

impl Config {
    /// The default configuration: enabled, loopback, port 5052.
    pub fn new_default() -> (r: Config)
        ensures
            r.enabled,
            r.listen_address == (Ipv4 { a: 127, b: 0, c: 0, d: 1 }),
            r.port == 5052,
    {
        Config { enabled: true, listen_address: Ipv4 { a: 127, b: 0, c: 0, d: 1 }, port: 5052 }
    }
}

} // verus!
