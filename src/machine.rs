//! Addresses of the replicas' services.
use vstd::prelude::*;

use crate::text::{decimal, port_text};

verus! {

/// A service listening on a port of every interface.
#[derive(Debug, Hash, PartialEq, Eq, Clone, Copy, Structural)]
pub struct ServeAddr {
    pub port: u16,
}

impl ServeAddr {
    pub fn new(port: u16) -> (r: Self)
        ensures
            r.port == port,
    {
        Self { port }
    }

    pub fn port(&self) -> (r: u16)
        ensures
            r == self.port,
    {
        self.port
    }

    /// `[::]:<port>`.
    pub fn addr(&self) -> (r: String)
        ensures
            r@ == "[::]:"@ + decimal(self.port as int),
    {
        let mut r = String::from_str("[::]:");
        r.append(port_text(self.port).as_str());
        r
    }

    /// `http://[::]:<port>`.
    pub fn http_addr(&self) -> (r: String)
        ensures
            r@ == "http://"@ + "[::]:"@ + decimal(self.port as int),
    {
        let mut r = String::from_str("http://");
        r.append(self.addr().as_str());
        r
    }
}

} // verus!
