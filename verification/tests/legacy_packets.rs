use quic::crypto::DiversificationNonce;
use quic::errors::Error;
use quic::packets::packet_number::PacketNumber;
use quic::packets::packet_number_length::PacketNumberLength;
use quic::packets::partial_packet_number::PartialPacketNumber;
use quic::packets::public_header::PublicHeader;
use quic::primitives::u48::U48;
use quic::protocol::connection_id::ConnectionId;
use quic::protocol::version::Version;

#[test]
fn partial_packet_number_infer_of_first_packet_returns_correct_packet_number() {
    let packet_number = PartialPacketNumber::OneByte(1).infer_packet_number(None).unwrap();

    assert_eq!(packet_number, PacketNumber::from_u8(1));
}

#[test]
fn partial_packet_number_infer_of_packet_returns_correct_packet_number() {
    let largest_acknowledged = Some(PacketNumber::from_u32(5436534));

    let packet_number = PartialPacketNumber::OneByte(234).infer_packet_number(largest_acknowledged).unwrap();

    assert_eq!(packet_number, PacketNumber::from_u32(5436650));
}

#[test]
fn legacy_infer_fails_without_a_next_packet_number() {
    assert_eq!(
        PartialPacketNumber::OneByte(1).infer_packet_number(Some(PacketNumber::max_value())),
        Err(Error::UnableToInferPacketNumber)
    );
}

#[test]
fn legacy_infer_uses_the_bit_length_of_the_partial_number() {
    let packet_number = PartialPacketNumber::TwoBytes(0x1f94)
        .infer_packet_number(Some(PacketNumber::from_u32(0xaa82f30e)))
        .unwrap();

    assert_eq!(packet_number, PacketNumber::from_u32(0xaa831f94));
}

#[test]
fn packet_number_lengths() {
    assert_eq!(PacketNumberLength::OneByte.len(), 1);
    assert_eq!(PacketNumberLength::SixBytes.bit_len(), 48);
    assert_eq!(PacketNumberLength::TwoBytes.max_packet_number(), PacketNumber::from_u16(0xffff));
    assert_eq!(PacketNumberLength::SixBytes.max_packet_number().into_u64(), 0xffff_ffff_ffff);
    assert_eq!(PacketNumberLength::OneByte.max_transmittable(), PacketNumber::from_u8(64));
    assert_eq!(PacketNumberLength::FourBytes.max_transmittable().into_u64(), 1 << 30);
    assert_eq!(PartialPacketNumber::FourBytes(3).len(), PacketNumberLength::FourBytes);
    assert_eq!(u64::from(PartialPacketNumber::SixBytes(U48::from_u32(77))), 77);
}

fn sample_id() -> ConnectionId {
    let mut bytes = [0u8; 18];
    for (i, b) in bytes.iter_mut().enumerate() {
        *b = i as u8;
    }
    ConnectionId::new(bytes)
}

#[test]
fn public_header_round_trips_with_six_byte_packet_number() {
    let header = PublicHeader {
        reset_flag: true,
        connection_id: Some(sample_id()),
        version: Some(Version(0x51303433)),
        diversification_nonce: Some(DiversificationNonce([7; 32])),
        partial_packet_number: PartialPacketNumber::SixBytes(U48::from_u32(0x1234_5678)),
    };
    let mut bytes = Vec::new();
    header.write(&mut bytes);

    assert_eq!(bytes[0], 0x01 | 0x02 | 0x04 | 0x08 | 0x30);
    assert_eq!(bytes.len(), 1 + 18 + 4 + 32 + 6);

    let (read, n) = PublicHeader::read(&bytes).unwrap();
    assert_eq!(n, bytes.len());
    assert_eq!(read.reset_flag, true);
    assert_eq!(read.connection_id, Some(sample_id()));
    assert_eq!(read.version, Some(Version(0x51303433)));
    assert_eq!(read.diversification_nonce, Some(DiversificationNonce([7; 32])));
    assert_eq!(read.partial_packet_number, PartialPacketNumber::SixBytes(U48::from_u32(0x1234_5678)));
}

#[test]
fn public_header_reads_the_reset_flag_from_the_version_bit() {
    let header = PublicHeader {
        reset_flag: true,
        connection_id: None,
        version: None,
        diversification_nonce: None,
        partial_packet_number: PartialPacketNumber::OneByte(9),
    };
    let mut bytes = Vec::new();
    header.write(&mut bytes);

    assert_eq!(bytes, vec![0x02, 9]);
    let (read, _) = PublicHeader::read(&bytes).unwrap();
    assert_eq!(read.reset_flag, false);
}

#[test]
fn public_header_reads_any_length_bit_as_six_bytes() {
    let bytes = [0x10, 0, 0, 0, 0, 0, 5];

    let (read, n) = PublicHeader::read(&bytes).unwrap();

    assert_eq!(n, 7);
    assert_eq!(read.partial_packet_number, PartialPacketNumber::SixBytes(U48::from_u8(5)));
}

#[test]
fn public_header_errors() {
    assert!(matches!(PublicHeader::read(&[]), Err(Error::UnableToReadPublicPacketHeaderFlags)));
    assert!(matches!(PublicHeader::read(&[0x01, 0, 0]), Err(Error::FailedToReadU32)));
    assert!(matches!(PublicHeader::read(&[0x04, 1]), Err(Error::FailedToReadBytes)));
    assert!(matches!(PublicHeader::read(&[0x00]), Err(Error::FailedToReadU8)));
}
