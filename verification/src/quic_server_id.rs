use vstd::prelude::*;

verus! {

/// The host and port that identify a server.
#[derive(Debug, Clone, Eq, PartialEq, Hash)]
pub struct QuicServerId {
    host: String,
    port: u16,
}

impl QuicServerId {
    /// The server id of a host and port.
    pub fn new(host: String, port: u16) -> (r: QuicServerId)
        ensures
            r.host() == host@,
            r.port() == port,
    {
        QuicServerId { host: host, port: port }
    }

    /// The host.
    pub closed spec fn host(&self) -> Seq<char> {
        self.host@
    }

    /// The port.
    pub closed spec fn port(&self) -> u16 {
        self.port
    }
}

} // verus!
