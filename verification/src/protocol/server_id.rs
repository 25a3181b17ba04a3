use vstd::prelude::*;

verus! {

/// The host and port a server is reached at.
#[derive(Debug, Clone, Eq, PartialEq, Hash)]
pub struct ServerId {
    host: String,
    port: u16,
}

impl ServerId {
    pub fn new(host: String, port: u16) -> (r: ServerId)
        ensures
            r.host() == host,
            r.port() == port,
    {
        ServerId { host: host, port: port }
    }

    pub closed spec fn host(&self) -> String {
        self.host
    }

    pub closed spec fn port(&self) -> u16 {
        self.port
    }
}

} // verus!
