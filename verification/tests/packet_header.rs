use quic::errors::Error;
use quic::packets::long_header::LongHeader;
use quic::packets::long_header_packet_type::LongHeaderPacketType;
use quic::packets::packet_codec::{DecodedPacket, PacketCodec};
use quic::packets::packet_header::PacketHeader;
use quic::packets::packet_number::PartialPacketNumber;
use quic::packets::short_header::ShortHeader;
use quic::packets::version_negotiation_packet::VersionNegotiationPacket;
use quic::protocol::connection_id::ConnectionId;
use quic::protocol::readable::Readable;
use quic::protocol::version::Version;
use quic::protocol::writable::Writable;

#[test]
fn read_write_version_negotiation_packet_header() {
    let version_negotiation_packet = VersionNegotiationPacket {
        destination_connection_id: Some(ConnectionId::generate().unwrap()),
        source_connection_id: Some(ConnectionId::generate().unwrap()),
        supported_versions: vec![Version::draft_ietf_08()],
    };
    let packet_header = PacketHeader::VersionNegotiation(version_negotiation_packet);

    let bytes = packet_header.bytes_vec().unwrap();

    let read_packet_header = PacketHeader::from_bytes(&bytes[..]).unwrap();

    assert_eq!(packet_header, read_packet_header);
}

#[test]
fn read_write_long_packet_header() {
    let long_header = LongHeader {
        packet_type: LongHeaderPacketType::Handshake,
        destination_connection_id: Some(ConnectionId::generate().unwrap()),
        source_connection_id: Some(ConnectionId::generate().unwrap()),
        version: Version::draft_ietf_08(),
        partial_packet_number: PartialPacketNumber::from_u8(5u8),
        payload_length: 654234,
    };
    let packet_header = PacketHeader::Long(long_header);

    let bytes = packet_header.bytes_vec().unwrap();

    let read_packet_header = PacketHeader::from_bytes(&bytes[..]).unwrap();

    assert_eq!(packet_header, read_packet_header);
}

#[test]
fn read_write_short_packet_header() {
    let short_header = ShortHeader {
        destination_connection_id: Some(ConnectionId::generate().unwrap()),
        partial_packet_number: PartialPacketNumber::from_u16(3421u16),
        key_phase: true,
    };
    let packet_header = PacketHeader::Short(short_header);

    let bytes = packet_header.bytes_vec().unwrap();

    let read_packet_header = PacketHeader::from_bytes(&bytes[..]).unwrap();

    assert_eq!(packet_header, read_packet_header);
}

fn sample_id(first: u8) -> ConnectionId {
    let mut bytes = [0u8; 18];
    for (i, b) in bytes.iter_mut().enumerate() {
        *b = first.wrapping_add(i as u8);
    }
    ConnectionId::new(bytes)
}

#[test]
fn long_header_bytes_are_laid_out_as_expected() {
    let packet_header = PacketHeader::Long(LongHeader {
        packet_type: LongHeaderPacketType::Initial,
        version: Version(0xff000008),
        destination_connection_id: None,
        source_connection_id: Some(sample_id(1)),
        payload_length: 37,
        partial_packet_number: PartialPacketNumber::from_u8(5),
    });

    let bytes = packet_header.bytes_vec().unwrap();

    let mut expected = vec![0xff, 0xff, 0x00, 0x00, 0x08, 0x0f];
    expected.extend_from_slice(sample_id(1).bytes());
    expected.push(37);
    expected.push(5);
    assert_eq!(bytes, expected);
    assert_eq!(PacketHeader::read(&bytes).unwrap(), (packet_header, bytes.len()));
}

#[test]
fn short_header_without_key_phase_round_trips() {
    let packet_header = PacketHeader::Short(ShortHeader {
        key_phase: false,
        destination_connection_id: Some(sample_id(9)),
        partial_packet_number: PartialPacketNumber::try_from(0x123456).unwrap(),
    });

    let bytes = packet_header.bytes_vec().unwrap();

    assert_eq!(bytes[0], 0);
    assert_eq!(bytes.len(), 1 + 18 + 4);
    assert_eq!(PacketHeader::from_bytes(&bytes).unwrap(), packet_header);
}

#[test]
fn writing_a_payload_length_too_large_for_a_var_int_fails() {
    let packet_header = PacketHeader::Long(LongHeader {
        packet_type: LongHeaderPacketType::Retry,
        version: Version(1),
        destination_connection_id: None,
        source_connection_id: None,
        payload_length: u64::MAX,
        partial_packet_number: PartialPacketNumber::from_u8(5),
    });

    assert_eq!(
        packet_header.bytes_vec(),
        Err(Error::IntegerValueIsTooLargeToBeStoredAsAVarInt(u64::MAX))
    );
}

#[test]
fn reading_an_unknown_long_packet_type_fails() {
    let bytes = [0x80 | 0x10, 0, 0, 0, 1, 0, 5, 5];

    assert_eq!(PacketHeader::read(&bytes), Err(Error::InvalidLongHeaderPacketType(0x10)));
}

#[test]
fn reading_nothing_fails_on_the_flags() {
    assert_eq!(PacketHeader::read(&[]), Err(Error::FailedToReadPacketHeaderFlags));
}

#[test]
fn version_zero_reads_as_version_negotiation() {
    let bytes = [0x80, 0, 0, 0, 0, 0, 0xff, 0, 0, 8, 0xff, 0, 0, 9];

    let (header, n) = PacketHeader::read(&bytes).unwrap();

    assert_eq!(n, bytes.len());
    assert_eq!(
        header,
        PacketHeader::VersionNegotiation(VersionNegotiationPacket {
            destination_connection_id: None,
            source_connection_id: None,
            supported_versions: vec![Version(0xff000008), Version(0xff000009)],
        })
    );
}

#[test]
fn connection_ids_of_header_are_given() {
    let packet_header = PacketHeader::Short(ShortHeader {
        key_phase: false,
        destination_connection_id: Some(sample_id(3)),
        partial_packet_number: PartialPacketNumber::from_u8(1),
    });

    assert_eq!(packet_header.destination_connection_id(), Some(sample_id(3)));
    assert_eq!(packet_header.source_connection_id(), None);
    assert_eq!(packet_header.payload_length(), None);
}

#[test]
fn decode_splits_a_datagram_at_the_payload_length() {
    let first = PacketHeader::Long(LongHeader {
        packet_type: LongHeaderPacketType::Initial,
        version: Version(0xff000008),
        destination_connection_id: None,
        source_connection_id: None,
        payload_length: 10,
        partial_packet_number: PartialPacketNumber::from_u8(1),
    });
    let second = PacketHeader::Short(ShortHeader {
        key_phase: true,
        destination_connection_id: Some(sample_id(7)),
        partial_packet_number: PartialPacketNumber::from_u8(2),
    });
    let codec = PacketCodec;
    let mut datagram = Vec::new();
    codec.encode(&first, &[1, 2], &mut datagram).unwrap();
    codec.encode(&second, &[3, 4, 5], &mut datagram).unwrap();
    assert_eq!(datagram.len(), 10 + 1 + 18 + 1 + 3);

    assert!(codec.payload_lengths_fit(&datagram));
    let packets = codec.decode(&datagram).unwrap();

    assert_eq!(
        packets,
        vec![
            DecodedPacket { packet_header: first, data: vec![1, 2] },
            DecodedPacket { packet_header: second, data: vec![3, 4, 5] },
        ]
    );
}

#[test]
fn a_payload_length_past_the_datagram_does_not_fit() {
    let header = PacketHeader::Long(LongHeader {
        packet_type: LongHeaderPacketType::Initial,
        version: Version(1),
        destination_connection_id: None,
        source_connection_id: None,
        payload_length: 50,
        partial_packet_number: PartialPacketNumber::from_u8(1),
    });
    let codec = PacketCodec;
    let mut datagram = Vec::new();
    codec.encode(&header, &[1, 2], &mut datagram).unwrap();

    assert!(!codec.payload_lengths_fit(&datagram));
}

#[test]
fn decode_passes_on_the_error_of_a_header() {
    let codec = PacketCodec;

    assert!(codec.payload_lengths_fit(&[0x80, 0, 0]));
    assert_eq!(codec.decode(&[0x80, 0, 0]), Err(Error::FailedToReadU32));
    assert_eq!(codec.decode(&[]), Ok(vec![]));
}
