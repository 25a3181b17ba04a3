use vstd::prelude::*;
use crate::errors::Error;
use crate::protocol::connection_id::ConnectionId;
use crate::protocol::role::Role;
use crate::protocol::transport_parameters::{
    EncryptedExtensionsMessageParameters, EncryptedExtensionsView, ServerSpecificTransportParameters,
    ServerSpecificView, TransportParameters, TransportParametersView, spec_write_transport_parameters,
};
use crate::protocol::version::Version;
use crate::protocol::writable::Writable;

verus! {

/// What the server side of a connection decides on its own: the transport parameters it offers,
/// the connection id it takes for the client's, and the labels of its secrets.
pub struct ServerPerspective {
    max_incoming_data_per_stream: u32,
    max_incoming_data_per_connection: u32,
}

/// The transport parameters a server offers: the eighth draft as the negotiated and only supported
/// version, the configured limits on incoming data, an idle timeout of ten seconds and a maximum
/// packet size of 65527, and nothing else.
pub open spec fn spec_server_transport_parameters(
    max_incoming_data_per_stream: u32,
    max_incoming_data_per_connection: u32,
) -> TransportParametersView<EncryptedExtensionsView, ServerSpecificView> {
    TransportParametersView {
        message_parameters: EncryptedExtensionsView {
            negotiated_version: Version(0xff000008),
            supported_versions: seq![Version(0xff000008)],
        },
        initial_max_stream_data: max_incoming_data_per_stream,
        initial_max_data: max_incoming_data_per_connection,
        idle_timeout: 10,
        initial_max_bidi_streams: None,
        initial_max_uni_streams: None,
        max_packet_size: Some(65527),
        ack_delay_exponent: None,
        disable_migration: false,
        role_specific_transport_parameters: ServerSpecificView { stateless_reset_token: None, preferred_address: None },
    }
}

impl ServerPerspective {
    /// The server side of a connection with the configured limits on incoming data.
    pub fn new(max_incoming_data_per_stream: u32, max_incoming_data_per_connection: u32) -> (r: ServerPerspective)
        ensures
            r.spec_max_incoming_data_per_stream() == max_incoming_data_per_stream,
            r.spec_max_incoming_data() == max_incoming_data_per_connection,
    {
        ServerPerspective { max_incoming_data_per_stream, max_incoming_data_per_connection }
    }

    pub closed spec fn spec_max_incoming_data_per_stream(&self) -> u32 {
        self.max_incoming_data_per_stream
    }

    pub closed spec fn spec_max_incoming_data(&self) -> u32 {
        self.max_incoming_data_per_connection
    }

    /// The transport parameters the server offers.
    pub fn build_transport_parameters(&self) -> (r: TransportParameters<
        EncryptedExtensionsMessageParameters,
        ServerSpecificTransportParameters,
    >)
        ensures
            r@ == spec_server_transport_parameters(
                self.spec_max_incoming_data_per_stream(),
                self.spec_max_incoming_data(),
            ),
    {
        let r = TransportParameters {
            message_parameters: EncryptedExtensionsMessageParameters {
                negotiated_version: Version::draft_ietf_08(),
                supported_versions: vec![Version::draft_ietf_08()],
            },
            initial_max_stream_data: self.max_incoming_data_per_stream,
            initial_max_data: self.max_incoming_data_per_connection,
            idle_timeout: 10,
            initial_max_bidi_streams: None,
            initial_max_uni_streams: None,
            max_packet_size: Some(65527),
            ack_delay_exponent: None,
            disable_migration: false,
            role_specific_transport_parameters: ServerSpecificTransportParameters {
                stateless_reset_token: None,
                preferred_address: None,
            },
        };
        proof {
            assert(r@.message_parameters.supported_versions =~= seq![Version(0xff000008)]);
        }
        r
    }

    /// The bytes of the transport parameters the server hands to the TLS session for the
    /// handshake.
    pub fn handshake_transport_parameters(&self) -> (r: Result<Vec<u8>, Error>)
        ensures
            match spec_write_transport_parameters::<EncryptedExtensionsMessageParameters, ServerSpecificTransportParameters>(
                spec_server_transport_parameters(self.spec_max_incoming_data_per_stream(), self.spec_max_incoming_data()),
            ) {
                Ok(bytes) => r matches Ok(v) && v@ == bytes,
                Err(e) => r == Err::<Vec<u8>, Error>(e),
            },
    {
        let parameters = self.build_transport_parameters();
        proof {
            let common = crate::protocol::transport_parameters::spec_common_parameters(parameters@);
            crate::protocol::transport_parameters::lemma_common_parameters(parameters@);
            crate::protocol::transport_parameters::lemma_parameters_bytes_bound(common);
            assert(common + Seq::empty() =~= common);
        }
        parameters.bytes_vec()
    }

    /// The server takes the remote connection id as the client's.
    pub fn client_connection_id(_local_connection_id: ConnectionId, remote_connection_id: ConnectionId) -> (r: ConnectionId)
        ensures
            r == remote_connection_id,
    {
        remote_connection_id
    }

    pub fn handshake_send_label() -> (r: &'static str)
        ensures
            r@ == "server hs"@,
    {
        "server hs"
    }

    pub fn handshake_receive_label() -> (r: &'static str)
        ensures
            r@ == "client hs"@,
    {
        "client hs"
    }

    pub fn update_secret_send_label() -> (r: &'static str)
        ensures
            r@ == "server 1rtt"@,
    {
        "server 1rtt"
    }

    pub fn update_secret_receive_label() -> (r: &'static str)
        ensures
            r@ == "client 1rtt"@,
    {
        "client 1rtt"
    }

    pub fn tls_exporter_send_label() -> (r: &'static str)
        ensures
            r@ == "EXPORTER-QUIC server 1rtt"@,
    {
        "EXPORTER-QUIC server 1rtt"
    }

    pub fn tls_exporter_receive_label() -> (r: &'static str)
        ensures
            r@ == "EXPORTER-QUIC client 1rtt"@,
    {
        "EXPORTER-QUIC client 1rtt"
    }

    pub fn role() -> (r: Role)
        ensures
            r == Role::Server,
    {
        Role::Server
    }

    pub fn max_incoming_data_per_stream(&self) -> (r: u32)
        ensures
            r == self.spec_max_incoming_data_per_stream(),
    {
        self.max_incoming_data_per_stream
    }

    pub fn max_incoming_data(&self) -> (r: u32)
        ensures
            r == self.spec_max_incoming_data(),
    {
        self.max_incoming_data_per_connection
    }
}

} // verus!
