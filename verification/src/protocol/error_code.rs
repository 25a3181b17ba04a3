use vstd::prelude::*;
use crate::errors::Error;
use crate::protocol::readable::Readable;
use crate::protocol::writable::Writable;
use crate::primitives::byte_order_primitives::{be_bytes, be_value, lemma_be_bytes_value, lemma_pow256_values};

verus! {

/// The transport error codes.
#[derive(Debug, Copy, Clone, PartialEq, Eq, Hash)]
pub enum ErrorCode {
    NoError,
    InternalError,
    ServerBusy,
    FlowControlError,
    StreamIdError,
    StreamStateError,
    FinalOffsetError,
    FrameFormatError,
    TransportParameterError,
    VersionNegotationError,
    ProtocolViolation,
    UnsolicitedPathResponse,
    FrameError(u8),
}

impl View for ErrorCode {
    type V = ErrorCode;

    open spec fn view(&self) -> ErrorCode {
        *self
    }
}

/// The 16-bit code of an error code: 0 to 0xb for the fixed codes, 0x100 plus the frame type for
/// a frame error.
pub open spec fn spec_error_code_value(code: ErrorCode) -> u16 {
    match code {
        ErrorCode::NoError => 0x0,
        ErrorCode::InternalError => 0x1,
        ErrorCode::ServerBusy => 0x2,
        ErrorCode::FlowControlError => 0x3,
        ErrorCode::StreamIdError => 0x4,
        ErrorCode::StreamStateError => 0x5,
        ErrorCode::FinalOffsetError => 0x6,
        ErrorCode::FrameFormatError => 0x7,
        ErrorCode::TransportParameterError => 0x8,
        ErrorCode::VersionNegotationError => 0x9,
        ErrorCode::ProtocolViolation => 0xa,
        ErrorCode::UnsolicitedPathResponse => 0xb,
        ErrorCode::FrameError(frame_type) => (0x100 + frame_type) as u16,
    }
}

/// The error code a 16-bit code stands for, if any.
pub open spec fn spec_error_code_from_value(value: u16) -> Option<ErrorCode> {
    if value == 0x0 {
        Some(ErrorCode::NoError)
    } else if value == 0x1 {
        Some(ErrorCode::InternalError)
    } else if value == 0x2 {
        Some(ErrorCode::ServerBusy)
    } else if value == 0x3 {
        Some(ErrorCode::FlowControlError)
    } else if value == 0x4 {
        Some(ErrorCode::StreamIdError)
    } else if value == 0x5 {
        Some(ErrorCode::StreamStateError)
    } else if value == 0x6 {
        Some(ErrorCode::FinalOffsetError)
    } else if value == 0x7 {
        Some(ErrorCode::FrameFormatError)
    } else if value == 0x8 {
        Some(ErrorCode::TransportParameterError)
    } else if value == 0x9 {
        Some(ErrorCode::VersionNegotationError)
    } else if value == 0xa {
        Some(ErrorCode::ProtocolViolation)
    } else if value == 0xb {
        Some(ErrorCode::UnsolicitedPathResponse)
    } else if 0x100 <= value <= 0x1ff {
        Some(ErrorCode::FrameError((value - 0x100) as u8))
    } else {
        None
    }
}

/// Every error code's 16-bit code stands for that error code again.
pub proof fn lemma_error_code_value_round_trip(code: ErrorCode)
    ensures
        spec_error_code_from_value(spec_error_code_value(code)) == Some(code),
{
}

/// Writing an error code and reading it back gives the error code and the two bytes written.
pub proof fn lemma_error_code_round_trip(code: ErrorCode, rest: Seq<u8>)
    ensures
        ErrorCode::spec_write(code) matches Ok(bytes) && ErrorCode::spec_read(bytes + rest)
            == Ok::<(ErrorCode, nat), Error>((code, 2)),
{
    lemma_pow256_values();
    let value = spec_error_code_value(code);
    lemma_be_bytes_value(value as nat, 2);
    let bytes = be_bytes(value as nat, 2);
    assert((bytes + rest).take(2) =~= bytes);
}

impl Readable for ErrorCode {
    /// A failure to read the two bytes, or a code that stands for no error code, is a failure to
    /// read an error code.
    open spec fn spec_read(bytes: Seq<u8>) -> Result<(ErrorCode, nat), Error> {
        match u16::spec_read(bytes) {
            Ok((value, n)) => match spec_error_code_from_value(value) {
                Some(code) => Ok((code, n)),
                None => Err(Error::FailedToReadErrorCode),
            },
            Err(_) => Err(Error::FailedToReadErrorCode),
        }
    }

    proof fn lemma_read_bounds(bytes: Seq<u8>) {
    }

    fn read(bytes: &[u8]) -> (res: Result<(ErrorCode, usize), Error>) {
        let (value, n) = match u16::read(bytes) {
            Ok(read) => read,
            Err(_) => {
                return Err(Error::FailedToReadErrorCode);
            },
        };
        let error_code = match value {
            0x0 => ErrorCode::NoError,
            0x1 => ErrorCode::InternalError,
            0x2 => ErrorCode::ServerBusy,
            0x3 => ErrorCode::FlowControlError,
            0x4 => ErrorCode::StreamIdError,
            0x5 => ErrorCode::StreamStateError,
            0x6 => ErrorCode::FinalOffsetError,
            0x7 => ErrorCode::FrameFormatError,
            0x8 => ErrorCode::TransportParameterError,
            0x9 => ErrorCode::VersionNegotationError,
            0xa => ErrorCode::ProtocolViolation,
            0xb => ErrorCode::UnsolicitedPathResponse,
            0x100..=0x1ff => {
                let frame_type = (value - 0x100) as u8;
                ErrorCode::FrameError(frame_type)
            },
            _ => {
                return Err(Error::FailedToReadErrorCode);
            },
        };
        Ok((error_code, n))
    }
}

impl Writable for ErrorCode {
    open spec fn spec_write(value: ErrorCode) -> Result<Seq<u8>, Error> {
        u16::spec_write(spec_error_code_value(value))
    }

    open spec fn write_requires(value: ErrorCode) -> bool {
        true
    }

    fn write(&self, out: &mut Vec<u8>) -> (res: Result<(), Error>) {
        let bytes: u16 = match self {
            ErrorCode::NoError => 0x0,
            ErrorCode::InternalError => 0x1,
            ErrorCode::ServerBusy => 0x2,
            ErrorCode::FlowControlError => 0x3,
            ErrorCode::StreamIdError => 0x4,
            ErrorCode::StreamStateError => 0x5,
            ErrorCode::FinalOffsetError => 0x6,
            ErrorCode::FrameFormatError => 0x7,
            ErrorCode::TransportParameterError => 0x8,
            ErrorCode::VersionNegotationError => 0x9,
            ErrorCode::ProtocolViolation => 0xa,
            ErrorCode::UnsolicitedPathResponse => 0xb,
            ErrorCode::FrameError(frame_type) => 0x100u16 + *frame_type as u16,
        };
        bytes.write(out)
    }
}

/// The two bytes an error code is sent as, most significant first: 0x0000 no error, 0x0001
/// internal error, 0x0002 server busy, 0x0003 flow control error, 0x0004 stream id error, 0x0005
/// stream state error, 0x0006 final offset error, 0x0007 frame format error, 0x0008 transport
/// parameter error, 0x0009 version negotiation error, 0x000a protocol violation, 0x000b unsolicited
/// path response, and 0x01 followed by the frame type for a frame error. Reading those two bytes
/// gives the error code back; every other 16-bit code fails to read.
pub proof fn lemma_error_code_bytes(code: ErrorCode, other: u16)
    ensures
        ErrorCode::spec_write(code) == Ok::<Seq<u8>, Error>(match code {
            ErrorCode::NoError => seq![0x00u8, 0x00u8],
            ErrorCode::InternalError => seq![0x00u8, 0x01u8],
            ErrorCode::ServerBusy => seq![0x00u8, 0x02u8],
            ErrorCode::FlowControlError => seq![0x00u8, 0x03u8],
            ErrorCode::StreamIdError => seq![0x00u8, 0x04u8],
            ErrorCode::StreamStateError => seq![0x00u8, 0x05u8],
            ErrorCode::FinalOffsetError => seq![0x00u8, 0x06u8],
            ErrorCode::FrameFormatError => seq![0x00u8, 0x07u8],
            ErrorCode::TransportParameterError => seq![0x00u8, 0x08u8],
            ErrorCode::VersionNegotationError => seq![0x00u8, 0x09u8],
            ErrorCode::ProtocolViolation => seq![0x00u8, 0x0au8],
            ErrorCode::UnsolicitedPathResponse => seq![0x00u8, 0x0bu8],
            ErrorCode::FrameError(frame_type) => seq![0x01u8, frame_type],
        }),
        ErrorCode::spec_read(ErrorCode::spec_write(code)->Ok_0) == Ok::<(ErrorCode, nat), Error>((code, 2)),
        (0x0c <= other < 0x100 || other >= 0x200) ==> spec_error_code_from_value(other) is None,
{
    let value = spec_error_code_value(code);
    crate::primitives::byte_order_primitives::lemma_be_bytes_two(value as nat);
    lemma_error_code_round_trip(code, Seq::empty());
    assert(ErrorCode::spec_write(code)->Ok_0 + Seq::<u8>::empty() =~= ErrorCode::spec_write(code)->Ok_0);
}

} // verus!
