use vstd::prelude::*;
use crate::packets::long_header_packet_type::LongHeaderPacketType;
use crate::packets::packet_number::PartialPacketNumber;
use crate::protocol::connection_id::ConnectionId;
use crate::protocol::version::Version;

verus! {

/// The header of a packet sent while a connection is being set up.
#[derive(Debug, Clone, Eq, PartialEq, Hash)]
pub struct LongHeader {
    pub packet_type: LongHeaderPacketType,
    pub version: Version,
    pub destination_connection_id: Option<ConnectionId>,
    pub source_connection_id: Option<ConnectionId>,
    pub payload_length: u64,
    pub partial_packet_number: PartialPacketNumber,
}

/// What a long header holds, with connection ids as their bytes and the partial packet number as
/// its value.
pub struct LongHeaderView {
    pub packet_type: LongHeaderPacketType,
    pub version: Version,
    pub destination_connection_id: Option<Seq<u8>>,
    pub source_connection_id: Option<Seq<u8>>,
    pub payload_length: u64,
    pub partial_packet_number: u32,
}

/// The bytes of a connection id that may be absent.
pub open spec fn connection_id_view(id: Option<ConnectionId>) -> Option<Seq<u8>> {
    match id {
        Some(id) => Some(id@),
        None => None,
    }
}

impl View for LongHeader {
    type V = LongHeaderView;

    open spec fn view(&self) -> LongHeaderView {
        LongHeaderView {
            packet_type: self.packet_type,
            version: self.version,
            destination_connection_id: connection_id_view(self.destination_connection_id),
            source_connection_id: connection_id_view(self.source_connection_id),
            payload_length: self.payload_length,
            partial_packet_number: self.partial_packet_number@,
        }
    }
}

} // verus!
