pub mod u24;
pub use self::u24::U24;

pub mod u48;
pub use self::u48::U48;

pub mod uf16;
pub use self::uf16::UF16;

pub mod abs_delta;
pub use self::abs_delta::AbsDelta;

pub mod byte_order_primitives;
pub use self::byte_order_primitives::ByteOrderPrimitives;

pub mod pos_overflow;
pub use self::pos_overflow::PosOverflow;
