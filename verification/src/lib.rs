//! QUIC protocol values: primitive integers, variable-length integers, packet numbers, packet
//! headers, transport parameters and the bookkeeping around them, with their wire formats.

pub mod errors;
pub mod primitives;
pub mod quic_tag;
pub mod quic_version;
pub mod quic_connection_id;
pub mod quic_server_id;
pub mod quic_tag_value_map;
pub mod protocol;
mod random;
pub mod packets;
pub mod crypto;
pub mod server_perspective;
pub mod quic_client;
pub mod quic_server;
pub mod quic_codec;
