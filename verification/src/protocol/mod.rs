pub mod readable;
pub use self::readable::Readable;

pub mod writable;
pub use self::writable::Writable;

pub mod var_int;
pub use self::var_int::VarInt;

pub mod version;
pub use self::version::Version;

pub mod error_code;
pub use self::error_code::ErrorCode;

pub mod connection_id;
pub use self::connection_id::ConnectionId;

pub mod role;
pub use self::role::Role;

pub mod stream_type;
pub use self::stream_type::StreamType;

pub mod stream_id;
pub use self::stream_id::StreamId;

pub mod stream_offset;
pub use self::stream_offset::StreamOffset;

pub mod encryption_level;
pub use self::encryption_level::EncryptionLevel;

pub mod flow_control;
pub use self::flow_control::FlowControl;

pub mod server_id;
pub use self::server_id::ServerId;

pub mod transport_parameters;
pub use self::transport_parameters::TransportParameterId;
