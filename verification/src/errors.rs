use vstd::prelude::*;
use crate::quic_tag::QuicTag;

verus! {

/// The ways in which reading, writing and interpreting QUIC values can fail.
#[derive(Debug, Clone, Copy, PartialEq, Eq)]
pub enum Error {
    FailedToReadBytes,
    FailedToReadU8,
    FailedToReadU16,
    FailedToReadU32,
    FailedToReadU64,
    FailedToReadU128,
    FailedToReadString,
    IntegerValueIsTooLargeToBeStoredAsAVarInt(u64),
    FailedToReadErrorCode,
    InvalidTransportParameterId(u16),
    DuplicateTransportParameter(u16),
    TransportParameterMustBeSpecified(u16),
    ValueExceedsTheMaximumPacketNumberValue(u64),
    ValueExceedsTheMaximumPartialPacketNumberValue(u32),
    FailedToBuildPartialPacketNumber,
    FailedToInferPacketNumber,
    UnableToInferPacketNumber,
    FailedToReadPartialPacketNumber,
    FailedToReadPacketHeaderFlags,
    UnableToReadPublicPacketHeaderFlags,
    InvalidLongHeaderPacketType(u8),
    InvalidQuicTagValue(QuicTag),
    MissingQuicTag(QuicTag),
    UnableToReadQuicTagValueMap,
    FailedToCreateCryptographicRandomNumberGenerator,
}

} // verus!
