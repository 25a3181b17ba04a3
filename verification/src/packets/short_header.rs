use vstd::prelude::*;
use crate::packets::packet_number::PartialPacketNumber;
use crate::protocol::connection_id::ConnectionId;
use crate::packets::long_header::connection_id_view;

verus! {

/// The header of a packet sent once a connection is set up.
#[derive(Debug, Clone, Eq, PartialEq, Hash)]
pub struct ShortHeader {
    pub key_phase: bool,
    pub destination_connection_id: Option<ConnectionId>,
    pub partial_packet_number: PartialPacketNumber,
}

/// What a short header holds, with the connection id as its bytes and the partial packet number
/// as its value.
pub struct ShortHeaderView {
    pub key_phase: bool,
    pub destination_connection_id: Option<Seq<u8>>,
    pub partial_packet_number: u32,
}

impl View for ShortHeader {
    type V = ShortHeaderView;

    open spec fn view(&self) -> ShortHeaderView {
        ShortHeaderView {
            key_phase: self.key_phase,
            destination_connection_id: connection_id_view(self.destination_connection_id),
            partial_packet_number: self.partial_packet_number@,
        }
    }
}

} // verus!
