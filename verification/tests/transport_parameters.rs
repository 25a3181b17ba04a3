use quic::errors::Error;
use quic::protocol::readable::Readable;
use quic::protocol::transport_parameters::{
    ClientHelloMessageParameters, ClientSpecificTransportParameters, EncryptedExtensionsMessageParameters,
    ServerSpecificTransportParameters, TransportParameterId, TransportParameters,
};
use quic::protocol::version::Version;
use quic::protocol::writable::Writable;
use quic::server_perspective::ServerPerspective;

fn test_write_read<T: Readable + Writable + PartialEq + std::fmt::Debug>(value: &T) -> Result<(), Error> {
    let bytes = value.bytes_vec()?;
    let read = T::from_bytes(&bytes[..])?;
    assert_eq!(&read, value);
    Ok(())
}

#[test]
fn write_read_client_hello() {
    let transport_parameters = TransportParameters {
        message_parameters: ClientHelloMessageParameters { initial_version: Version::draft_ietf_08() },

        initial_max_stream_data: 8192,
        initial_max_data: 65536,
        idle_timeout: 120,
        initial_max_bidi_streams: Some(8),
        initial_max_uni_streams: Some(8),
        max_packet_size: Some(1024),
        ack_delay_exponent: Some(162),
        disable_migration: false,
        role_specific_transport_parameters: ClientSpecificTransportParameters,
    };

    test_write_read(&transport_parameters).unwrap();
}

#[test]
fn write_read_server_encrypted_extensions() {
    let transport_parameters = TransportParameters {
        message_parameters: EncryptedExtensionsMessageParameters {
            negotiated_version: Version::draft_ietf_08(),
            supported_versions: vec![Version::draft_ietf_08()],
        },

        initial_max_stream_data: 8192,
        initial_max_data: 65536,
        idle_timeout: 120,
        initial_max_bidi_streams: Some(8),
        initial_max_uni_streams: Some(8),
        max_packet_size: Some(1024),
        ack_delay_exponent: Some(162),
        disable_migration: false,
        role_specific_transport_parameters: ServerSpecificTransportParameters {
            stateless_reset_token: None,
            preferred_address: Some(()),
        },
    };

    test_write_read(&transport_parameters).unwrap();
}

fn client_parameters() -> TransportParameters<ClientHelloMessageParameters, ClientSpecificTransportParameters> {
    TransportParameters {
        message_parameters: ClientHelloMessageParameters { initial_version: Version(1) },
        initial_max_stream_data: 1,
        initial_max_data: 2,
        idle_timeout: 3,
        initial_max_bidi_streams: None,
        initial_max_uni_streams: None,
        max_packet_size: None,
        ack_delay_exponent: None,
        disable_migration: true,
        role_specific_transport_parameters: ClientSpecificTransportParameters,
    }
}

#[test]
fn client_hello_parameters_are_laid_out_in_order_of_identifier() {
    let bytes = client_parameters().bytes_vec().unwrap();

    assert_eq!(
        bytes,
        vec![
            0, 0, 0, 1, // initial version
            0, 26, // length of the parameters
            0, 0, 0, 4, 0, 0, 0, 1, // initial maximum stream data
            0, 1, 0, 4, 0, 0, 0, 2, // initial maximum data
            0, 3, 0, 2, 0, 3, // idle timeout
            0, 9, 0, 0, // migration disabled
        ]
    );
    test_write_read(&client_parameters()).unwrap();
}

#[test]
fn server_parameters_with_a_token_round_trip() {
    let transport_parameters = TransportParameters {
        message_parameters: EncryptedExtensionsMessageParameters {
            negotiated_version: Version(7),
            supported_versions: vec![Version(7), Version(8)],
        },
        initial_max_stream_data: 10,
        initial_max_data: 20,
        idle_timeout: 30,
        initial_max_bidi_streams: Some(1),
        initial_max_uni_streams: None,
        max_packet_size: None,
        ack_delay_exponent: Some(3),
        disable_migration: false,
        role_specific_transport_parameters: ServerSpecificTransportParameters {
            stateless_reset_token: Some([9; 16]),
            preferred_address: None,
        },
    };

    test_write_read(&transport_parameters).unwrap();
}

#[test]
fn a_missing_required_parameter_is_an_error() {
    let bytes = vec![0, 0, 0, 1, 0, 8, 0, 0, 0, 4, 0, 0, 0, 1];

    let result = TransportParameters::<ClientHelloMessageParameters, ClientSpecificTransportParameters>::from_bytes(&bytes);

    assert_eq!(result, Err(Error::TransportParameterMustBeSpecified(1)));
}

#[test]
fn a_repeated_parameter_is_an_error() {
    let bytes = vec![0, 0, 0, 1, 0, 16, 0, 0, 0, 4, 0, 0, 0, 1, 0, 0, 0, 4, 0, 0, 0, 1];

    let result = TransportParameters::<ClientHelloMessageParameters, ClientSpecificTransportParameters>::from_bytes(&bytes);

    assert_eq!(result, Err(Error::DuplicateTransportParameter(0)));
}

#[test]
fn an_unknown_parameter_is_an_error() {
    let bytes = vec![0, 0, 0, 1, 0, 4, 0, 10, 0, 0];

    let result = TransportParameters::<ClientHelloMessageParameters, ClientSpecificTransportParameters>::from_bytes(&bytes);

    assert_eq!(result, Err(Error::InvalidTransportParameterId(10)));
}

#[test]
fn a_short_stateless_reset_token_is_an_error() {
    let mut bytes = client_parameters().bytes_vec().unwrap();
    bytes[5] += 6;
    bytes.extend_from_slice(&[0, 6, 0, 2, 1, 2]);

    let result = TransportParameters::<ClientHelloMessageParameters, ServerSpecificTransportParameters>::from_bytes(&bytes);

    assert_eq!(result, Err(Error::FailedToReadBytes));
}

#[test]
fn encrypted_extensions_drop_repeated_versions_when_read() {
    let parameters = EncryptedExtensionsMessageParameters {
        negotiated_version: Version(1),
        supported_versions: vec![Version(5), Version(6), Version(5)],
    };
    let bytes = parameters.bytes_vec().unwrap();

    let read = EncryptedExtensionsMessageParameters::from_bytes(&bytes).unwrap();

    assert_eq!(read.supported_versions, vec![Version(5), Version(6)]);
}

#[test]
fn transport_parameter_ids_convert_both_ways() {
    for code in 0u16..10 {
        let id = TransportParameterId::try_from(code).unwrap();
        assert_eq!(u16::from(id), code);
    }
    assert_eq!(TransportParameterId::try_from(10), Err(Error::InvalidTransportParameterId(10)));
}

#[test]
fn server_perspective_offers_its_limits() {
    let perspective = ServerPerspective::new(100, 1000);
    let parameters = perspective.build_transport_parameters();

    assert_eq!(parameters.initial_max_stream_data, 100);
    assert_eq!(parameters.initial_max_data, 1000);
    assert_eq!(parameters.idle_timeout, 10);
    assert_eq!(parameters.max_packet_size, Some(65527));

    let bytes = perspective.handshake_transport_parameters().unwrap();
    let read = TransportParameters::<EncryptedExtensionsMessageParameters, ServerSpecificTransportParameters>::from_bytes(&bytes).unwrap();
    assert_eq!(read, parameters);
    assert_eq!(ServerPerspective::handshake_send_label(), "server hs");
    assert_eq!(ServerPerspective::tls_exporter_receive_label(), "EXPORTER-QUIC client 1rtt");
}
