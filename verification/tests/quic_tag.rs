use quic::errors::Error;
use quic::quic_connection_id::QuicConnectionId;
use quic::quic_tag::QuicTag;
use quic::quic_tag_value_map::QuicTagValueMap;
use quic::quic_version::QuicVersion;
use quic::protocol::readable::Readable;
use quic::protocol::writable::Writable;

#[test]
fn get_optional_value_for_missing_returns_none() {
    let quic_tag_value_map = QuicTagValueMap::default();

    let result = quic_tag_value_map.get_optional_value::<QuicVersion>(QuicTag::Version);

    assert!(matches!(result, Ok(None)));
}

#[test]
fn get_optional_value_for_existent_returns_value() {
    let mut quic_tag_value_map = QuicTagValueMap::default();
    quic_tag_value_map.set_value(QuicTag::Version, &QuicVersion::draft_ietf_01()).unwrap();

    let result = quic_tag_value_map.get_optional_value::<QuicVersion>(QuicTag::Version);

    assert!(matches!(result, Ok(Some(v)) if v == QuicVersion::draft_ietf_01()));
}

#[test]
fn get_required_value_for_missing_returns_error() {
    let quic_tag_value_map = QuicTagValueMap::default();

    let result = quic_tag_value_map.get_required_value::<QuicVersion>(QuicTag::Version);

    assert!(matches!(result, Err(Error::MissingQuicTag(QuicTag::Version))));
}

#[test]
fn client_hello_to_hex() {
    assert_eq!(0x4f4c4843, u32::from(QuicTag::ClientHello));
}

#[test]
fn server_name_identification_to_hex() {
    assert_eq!(0x494e53, u32::from(QuicTag::ServerNameIndication));
}

#[test]
fn read_client_hello() {
    assert_eq!(QuicTag::read(&[0x43, 0x48, 0x4c, 0x4f]).unwrap().0, QuicTag::ClientHello);
}

#[test]
fn read_server_name_indication() {
    assert_eq!(QuicTag::read(&[0x53, 0x4e, 0x49, 0x00]).unwrap().0, QuicTag::ServerNameIndication);
}

#[test]
fn unknown_bytes_read_as_a_custom_tag() {
    assert_eq!(QuicTag::from_bytes([0xff, 0x54, 0x52, 0x43]), QuicTag::Custom([0xff, 0x54, 0x52, 0x43]));
    assert_eq!(QuicTag::from_bytes(*b"ff54"), QuicTag::CertificateChain);
    assert_eq!(QuicTag::CertificateChain.to_bytes(), *b"ff54");
    assert!(QuicTag::read(&[1, 2, 3]).is_err());
}

#[test]
fn tags_compare_by_their_code() {
    assert!(QuicTag::ServerNameIndication < QuicTag::ClientHello);
    assert!(QuicTag::Custom([0, 0, 1, 0]) < QuicTag::Custom([0, 0, 0, 1]));
    assert!(QuicTag::Custom([0xff, 0, 0, 0]) < QuicTag::Custom([0, 1, 0, 0]));
}

#[test]
fn the_map_keeps_one_value_per_tag() {
    let mut map = QuicTagValueMap::new();
    map.set_value(QuicTag::ServerNonce, &7u32).unwrap();
    map.set_value(QuicTag::ClientHello, &1u8).unwrap();
    map.set_value(QuicTag::ServerNonce, &9u16).unwrap();

    assert_eq!(map.len(), 2);
    assert_eq!(map.get_required_value::<u16>(QuicTag::ServerNonce), Ok(9));
    assert_eq!(map.get_required_value::<u8>(QuicTag::ClientHello), Ok(1));
    assert_eq!(map.get_required_value::<u32>(QuicTag::ServerNonce), Err(Error::InvalidQuicTagValue(QuicTag::ServerNonce)));
    assert_eq!(map.get_optional_values::<u16>(QuicTag::Version), Ok(vec![]));
    assert_eq!(map.get_required_values::<u16>(QuicTag::Version), Err(Error::MissingQuicTag(QuicTag::Version)));
}

#[test]
fn values_of_a_tag_are_read_one_after_another() {
    let mut map = QuicTagValueMap::new();
    map.set_value(QuicTag::Version, &vec![1u16, 2, 3]).unwrap();

    assert_eq!(map.get_required_values::<u16>(QuicTag::Version), Ok(vec![1, 2, 3]));
    assert_eq!(map.get_optional_values::<u32>(QuicTag::Version), Err(Error::InvalidQuicTagValue(QuicTag::Version)));
}

#[test]
fn the_map_is_written_as_an_index_then_the_data_in_order_of_tags() {
    let mut map = QuicTagValueMap::new();
    map.set_value(QuicTag::ServerNonce, &vec![5u8, 6]).unwrap();
    map.set_value(QuicTag::ClientHello, &vec![1u8]).unwrap();
    let mut bytes = Vec::new();
    map.write(&mut bytes);

    assert_eq!(
        bytes,
        vec![
            0x43, 0x48, 0x4c, 0x4f, 0, 0, 0, 1, // CHLO, ends at 1
            0x53, 0x4e, 0x4f, 0x00, 0, 0, 0, 3, // SNO, ends at 3
            1, 5, 6,
        ]
    );
    assert!(!QuicTagValueMap::index_offsets_fit(&bytes, 2));
}

#[test]
fn a_map_of_empty_values_reads_back() {
    let mut map = QuicTagValueMap::new();
    map.set_value(QuicTag::Version, &Vec::<u8>::new()).unwrap();
    map.set_value(QuicTag::ClientNonce, &Vec::<u8>::new()).unwrap();
    let mut bytes = Vec::new();
    map.write(&mut bytes);

    assert!(QuicTagValueMap::index_offsets_fit(&bytes, 2));
    let (read, n) = QuicTagValueMap::read(&bytes, 2).unwrap();
    assert_eq!(n, 16);
    assert_eq!(read.len(), 2);
    assert_eq!(read.get_required_value::<Vec<u8>>(QuicTag::Version), Ok(vec![]));
    assert_eq!(read.get_required_value::<Vec<u8>>(QuicTag::ClientNonce), Ok(vec![]));
}

#[test]
fn a_map_with_a_value_has_offsets_that_do_not_fit() {
    let mut map = QuicTagValueMap::new();
    map.set_value(QuicTag::Version, &7u8).unwrap();
    let mut bytes = Vec::new();
    map.write(&mut bytes);

    assert_eq!(bytes, vec![0x56, 0x45, 0x52, 0x00, 0, 0, 0, 1, 7]);
    assert!(!QuicTagValueMap::index_offsets_fit(&bytes, 1));
}

#[test]
fn reading_a_short_index_fails() {
    assert_eq!(QuicTagValueMap::read(&[0x43, 0x48], 1).err(), Some(Error::FailedToReadBytes));
    assert_eq!(QuicTagValueMap::read(&[0x43, 0x48, 0x4c, 0x4f, 0], 1).err(), Some(Error::UnableToReadQuicTagValueMap));
}

#[test]
fn quic_versions_and_connection_ids_round_trip() {
    let version = QuicVersion::draft_ietf_01();
    assert_eq!(version.bytes_vec().unwrap(), vec![0x10, 0x00, 0x00, 0xff]);
    assert_eq!(QuicVersion::from_bytes(&[0x10, 0x00, 0x00, 0xff]).unwrap(), version);

    let connection_id = QuicConnectionId(0x0102030405060708);
    assert_eq!(connection_id.bytes_vec().unwrap(), vec![8, 7, 6, 5, 4, 3, 2, 1]);
    assert_eq!(QuicConnectionId::from_bytes(&[8, 7, 6, 5, 4, 3, 2, 1]).unwrap(), connection_id);
    assert_eq!(QuicConnectionId::from_bytes(&[1, 2]), Err(Error::FailedToReadU64));
    let _ = QuicConnectionId::generate();
}

#[test]
fn tags_are_values_of_a_map_too() {
    let mut map = QuicTagValueMap::new();
    map.set_value(QuicTag::Version, &vec![QuicTag::ClientHello, QuicTag::X509]).unwrap();

    assert_eq!(
        map.get_required_values::<QuicTag>(QuicTag::Version),
        Ok(vec![QuicTag::ClientHello, QuicTag::X509])
    );
    assert_eq!(map.get_optional_values::<QuicTag>(QuicTag::ClientNonce), Ok(vec![]));
}
