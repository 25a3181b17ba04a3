use quic::errors::Error;
use quic::protocol::connection_id::ConnectionId;
use quic::protocol::error_code::ErrorCode;
use quic::protocol::readable::Readable;
use quic::protocol::var_int::VarInt;
use quic::protocol::version::Version;
use quic::protocol::writable::Writable;

fn test_write_read<T: Readable + Writable + PartialEq + std::fmt::Debug>(value: &T) -> Result<(), Error> {
    let bytes = value.bytes_vec()?;
    let read = T::from_bytes(&bytes[..])?;
    assert_eq!(&read, value);
    Ok(())
}

#[test]
fn read_var_int_of_1_byte_reads_correctly() {
    let var_int = VarInt::from_bytes(&[0x25, 0xff, 0xff]).unwrap();

    assert_eq!(var_int, VarInt::from(37u8))
}

#[test]
fn read_var_int_of_2_bytes_reads_correctly() {
    let var_int = VarInt::from_bytes(&[0x7b, 0xbd, 0xff, 0xff]).unwrap();

    assert_eq!(var_int, VarInt::from(15293u16))
}

#[test]
fn read_var_int_of_4_bytes_reads_correctly() {
    let var_int = VarInt::from_bytes(&[0x9d, 0x7f, 0x3e, 0x7d, 0xff, 0xff]).unwrap();

    assert_eq!(var_int, VarInt::from(494878333u32))
}

#[test]
fn read_var_int_of_8_bytes_reads_correctly() {
    let var_int = VarInt::from_bytes(&[0xc2, 0x19, 0x7c, 0x5e, 0xff, 0x14, 0xe8, 0x8c, 0xff, 0xff]).unwrap();

    assert_eq!(var_int, VarInt::value_from(151288809941952652u64).unwrap())
}

#[test]
fn read_var_int_into_larger_integer_reads_correctly() {
    let var_int = VarInt::from_bytes(&[0b00101101, 0xff, 0xff]).unwrap();

    assert_eq!(var_int, VarInt::from(0b00101101u32))
}

#[test]
fn write_var_int_of_1_byte_writes_correctly() {
    let bytes = VarInt::from(37u8).bytes_vec().unwrap();

    assert_eq!(&bytes[..], &[0x25]);
}

#[test]
fn write_var_int_of_2_bytes_writes_correctly() {
    let bytes = VarInt::from(15293u16).bytes_vec().unwrap();

    assert_eq!(&bytes[..], &[0x7b, 0xbd]);
}

#[test]
fn write_var_int_of_4_bytes_writes_correctly() {
    let bytes = VarInt::from(494878333u32).bytes_vec().unwrap();

    assert_eq!(&bytes[..], &[0x9d, 0x7f, 0x3e, 0x7d]);
}

#[test]
fn write_var_int_of_8_bytes_writes_correctly() {
    let bytes = VarInt::value_from(151288809941952652u64).unwrap().bytes_vec().unwrap();

    assert_eq!(&bytes[..], &[0xc2, 0x19, 0x7c, 0x5e, 0xff, 0x14, 0xe8, 0x8c]);
}

#[test]
fn try_from_returns_error_for_int_too_large() {
    let error = VarInt::value_from(u64::MAX).unwrap_err();

    assert_eq!(error, Error::IntegerValueIsTooLargeToBeStoredAsAVarInt(u64::MAX));
}

#[test]
fn var_int_read_of_truncated_bytes_fails() {
    assert_eq!(VarInt::read(&[0x7b]), Err(Error::FailedToReadBytes));
    assert_eq!(VarInt::read(&[]), Err(Error::FailedToReadBytes));
}

#[test]
fn var_int_checked_add_stops_at_the_maximum() {
    let max = VarInt::value_from((1u64 << 62) - 1).unwrap();
    assert_eq!(max.checked_add(VarInt::from(1u8)), Err(Error::IntegerValueIsTooLargeToBeStoredAsAVarInt(1u64 << 62)));
    assert_eq!(VarInt::from(2u8).checked_add(VarInt::from(3u8)).unwrap().into_inner(), 5);
}

#[test]
fn var_int_round_trips_at_each_length_boundary() {
    for value in [0u64, 63, 64, 16383, 16384, 1073741823, 1073741824, (1u64 << 62) - 1] {
        test_write_read(&VarInt::value_from(value).unwrap()).unwrap();
    }
}

#[test]
fn is_version_negotation_returns_true_for_negotation() {
    assert!(Version::negotiation().is_version_negotation());
}

#[test]
fn is_version_negotation_returns_false_for_other_version() {
    let version = Version(15);

    assert_eq!(version.is_version_negotation(), false);
}

#[test]
fn is_force_negotation_returns_true_for_force_negotation_version() {
    let version = Version(0x1a2a3a4a);

    assert!(version.is_force_negotiation());
}

#[test]
fn is_force_negotation_returns_false_for_normal_version() {
    let version = Version(0x162a3a4a);

    assert_eq!(version.is_force_negotiation(), false);
}

#[test]
fn ietf_draft_version_works() {
    let version = Version(0xff00000D);

    assert!(version.is_ietf_draft());
    assert_eq!(version.ietf_draft_number(), Some(13));
}

#[test]
fn find_highest_supported_returns_none_for_unsupported() {
    let available = vec![Version(0x00001234)];

    let highest_supported = Version::find_highest_supported(&available);

    assert_eq!(highest_supported, None);
}

#[test]
fn find_highest_supported_returns_version_for_supported() {
    let available = vec![Version::draft_ietf_08()];

    let highest_supported = Version::find_highest_supported(&available);

    assert_eq!(highest_supported, Some(Version::draft_ietf_08()));
}

#[test]
fn ietf_consensus_reserved_versions_are_the_low_ones() {
    assert!(Version(0xffff).is_ietf_consensus_reserved());
    assert!(!Version(0x10000).is_ietf_consensus_reserved());
    assert_eq!(Version(0x12345678).ietf_draft_number(), None);
}

#[test]
fn read_write_connection_id() {
    let connection_id = ConnectionId::generate().unwrap();

    test_write_read(&connection_id).unwrap();
}

#[test]
fn read_of_short_connection_id() {
    let bytes = [21, 54, 213, 17];

    let connection_id = ConnectionId::from_bytes(&bytes).unwrap();

    assert_eq!(
        connection_id,
        ConnectionId::new([0, 0, 0, 0, 0, 0, 0, 0, 0, 0, 0, 0, 0, 0, 21, 54, 213, 17])
    );
}

#[test]
fn connection_id_read_takes_at_most_eighteen_bytes() {
    let bytes: Vec<u8> = (0..20).collect();

    let (connection_id, n) = ConnectionId::read(&bytes).unwrap();

    assert_eq!(n, 18);
    assert_eq!(connection_id.bytes(), &bytes[..18]);
}

#[test]
fn round_trip_frame_error() {
    test_write_read(&ErrorCode::FrameError(208)).unwrap();
}

#[test]
fn error_codes_round_trip() {
    for code in [
        ErrorCode::NoError,
        ErrorCode::InternalError,
        ErrorCode::ServerBusy,
        ErrorCode::FlowControlError,
        ErrorCode::StreamIdError,
        ErrorCode::StreamStateError,
        ErrorCode::FinalOffsetError,
        ErrorCode::FrameFormatError,
        ErrorCode::TransportParameterError,
        ErrorCode::VersionNegotationError,
        ErrorCode::ProtocolViolation,
        ErrorCode::UnsolicitedPathResponse,
        ErrorCode::FrameError(0),
    ] {
        test_write_read(&code).unwrap();
    }
    assert_eq!(ErrorCode::FrameError(208).bytes_vec().unwrap(), vec![0x01, 0xd0]);
}

#[test]
fn unknown_error_code_fails_to_read() {
    assert!(ErrorCode::from_bytes(&[0x00, 0x0c]).is_err());
}

#[test]
fn strings_are_written_as_utf8_and_read_back() {
    let text = String::from("h\u{f6}st");
    let bytes = text.bytes_vec().unwrap();
    assert_eq!(bytes, vec![0x68, 0xc3, 0xb6, 0x73, 0x74]);
    assert_eq!(String::read(&bytes), Ok((text, 5)));
    assert_eq!(String::read(&[]), Ok((String::new(), 0)));
}

#[test]
fn invalid_utf8_fails_to_read_as_a_string() {
    assert_eq!(String::read(&[0x68, 0xc3]), Err(Error::FailedToReadString));
    assert_eq!(String::read(&[0xff]), Err(Error::FailedToReadString));
}

#[test]
fn the_first_byte_of_a_var_int_gives_its_length() {
    for (value, len) in [(63u64, 1usize), (64, 2), (16383, 2), (16384, 4), (1073741823, 4), (1073741824, 8), (4611686018427387903, 8)] {
        let bytes = VarInt::value_from(value).unwrap().bytes_vec().unwrap();
        assert_eq!(bytes.len(), len);
        assert_eq!(1usize << (bytes[0] >> 6), len);
        assert_eq!(VarInt::from_bytes(&bytes).unwrap().into_inner(), value);
    }
}
