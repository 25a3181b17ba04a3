use vstd::prelude::*;
use crate::protocol::connection_id::ConnectionId;
use crate::protocol::version::Version;
use crate::packets::long_header::connection_id_view;

verus! {

/// A packet listing the versions a server supports.
#[derive(Debug, Clone, Eq, PartialEq, Hash)]
pub struct VersionNegotiationPacket {
    pub destination_connection_id: Option<ConnectionId>,
    pub source_connection_id: Option<ConnectionId>,
    pub supported_versions: Vec<Version>,
}

/// What a version negotiation packet holds, with connection ids as their bytes and its versions
/// as a sequence.
pub struct VersionNegotiationPacketView {
    pub destination_connection_id: Option<Seq<u8>>,
    pub source_connection_id: Option<Seq<u8>>,
    pub supported_versions: Seq<Version>,
}

impl View for VersionNegotiationPacket {
    type V = VersionNegotiationPacketView;

    open spec fn view(&self) -> VersionNegotiationPacketView {
        VersionNegotiationPacketView {
            destination_connection_id: connection_id_view(self.destination_connection_id),
            source_connection_id: connection_id_view(self.source_connection_id),
            supported_versions: self.supported_versions@,
        }
    }
}

} // verus!
