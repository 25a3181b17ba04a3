pub mod epochs;

mod diet;

pub mod packet_number;
pub use self::packet_number::{PacketNumber, PartialPacketNumber, PartialPacketNumberLength};

pub mod packet_number_length;
pub use self::packet_number_length::PacketNumberLength;
pub mod partial_packet_number;

pub mod long_header_packet_type;
pub use self::long_header_packet_type::LongHeaderPacketType;

pub mod long_header;
pub use self::long_header::LongHeader;

pub mod short_header;
pub use self::short_header::ShortHeader;

pub mod version_negotiation_packet;
pub use self::version_negotiation_packet::VersionNegotiationPacket;

pub mod packet_header;
pub use self::packet_header::PacketHeader;

pub mod packet_codec;
pub use self::packet_codec::PacketCodec;

pub mod public_header;
pub use self::public_header::PublicHeader;

pub mod packet_history;
pub use self::packet_history::PacketHistory;
