use vstd::prelude::*;
use vstd::slice::slice_subrange;
use crate::errors::Error;
use crate::packets::long_header::{LongHeader, LongHeaderView, connection_id_view};
use crate::packets::long_header_packet_type::LongHeaderPacketType;
use crate::packets::packet_codec::{DecodedPacketView, lemma_decode_front, spec_decode_datagram, spec_prepend};
use crate::packets::packet_number::{
    PartialPacketNumber, MAX_PARTIAL_PACKET_NUMBER, lemma_partial_packet_number_round_trip,
    spec_write_partial_packet_number,
};
use crate::primitives::byte_order_primitives::{be_bytes, be_value, lemma_be_bytes_value, lemma_pow256_values};
use crate::packets::short_header::{ShortHeader, ShortHeaderView};
use crate::packets::version_negotiation_packet::{
    VersionNegotiationPacket, VersionNegotiationPacketView,
};
use crate::protocol::connection_id::{ConnectionId, spec_read_connection_id};
use crate::protocol::readable::{Readable, collect_from_bytes, spec_collect, views};
use crate::protocol::var_int::{
    VarInt, MAX_VALUE as VAR_INT_MAX_VALUE, lemma_var_int_round_trip, spec_write_var_int,
};
use crate::protocol::version::{Version, lemma_version_round_trip, lemma_versions_round_trip};
use crate::protocol::writable::{Writable, spec_write_all, write_all, write_matches};

verus! {

/// The header in front of a packet.
#[derive(Debug, Clone, Eq, PartialEq, Hash)]
pub enum PacketHeader {
    Long(LongHeader),
    Short(ShortHeader),
    VersionNegotiation(VersionNegotiationPacket),
}

/// What a packet header holds.
pub enum PacketHeaderView {
    Long(LongHeaderView),
    Short(ShortHeaderView),
    VersionNegotiation(VersionNegotiationPacketView),
}

impl View for PacketHeader {
    type V = PacketHeaderView;

    open spec fn view(&self) -> PacketHeaderView {
        match self {
            PacketHeader::Long(h) => PacketHeaderView::Long(h@),
            PacketHeader::Short(h) => PacketHeaderView::Short(h@),
            PacketHeader::VersionNegotiation(h) => PacketHeaderView::VersionNegotiation(h@),
        }
    }
}

/// The flag bit of a short header's first byte that holds the key phase.
pub const KEY_PHASE: u8 = 0x40;

/// The flag bit of the first byte that marks a long header.
pub const LONG_HEADER: u8 = 0x80;

pub const LONG_PACKET_TYPE_INITIAL: u8 = 0x7F;

pub const LONG_PACKET_TYPE_RETRY: u8 = 0x7E;

pub const LONG_PACKET_TYPE_HANDSHAKE: u8 = 0x7D;

pub const LONG_PACKET_TYPE_ZERO_RTT_PROTECTED: u8 = 0x7C;

/// The low seven bits of a long header's first byte for each packet type.
pub open spec fn spec_packet_type_bits(packet_type: LongHeaderPacketType) -> u8 {
    match packet_type {
        LongHeaderPacketType::Initial => LONG_PACKET_TYPE_INITIAL,
        LongHeaderPacketType::Retry => LONG_PACKET_TYPE_RETRY,
        LongHeaderPacketType::Handshake => LONG_PACKET_TYPE_HANDSHAKE,
        LongHeaderPacketType::ZeroRttProtected => LONG_PACKET_TYPE_ZERO_RTT_PROTECTED,
    }
}

/// The packet type whose bits these are, if any.
pub open spec fn spec_packet_type_of_bits(bits: u8) -> Option<LongHeaderPacketType> {
    if bits == LONG_PACKET_TYPE_INITIAL {
        Some(LongHeaderPacketType::Initial)
    } else if bits == LONG_PACKET_TYPE_RETRY {
        Some(LongHeaderPacketType::Retry)
    } else if bits == LONG_PACKET_TYPE_HANDSHAKE {
        Some(LongHeaderPacketType::Handshake)
    } else if bits == LONG_PACKET_TYPE_ZERO_RTT_PROTECTED {
        Some(LongHeaderPacketType::ZeroRttProtected)
    } else {
        None
    }
}

/// What reading a connection id whose length nibble is `length_flags` gives: none for a zero
/// nibble, and otherwise a connection id read from at most `length_flags + 3` bytes.
pub open spec fn spec_read_flagged_connection_id(bytes: Seq<u8>, length_flags: u8) -> (Option<Seq<u8>>, nat) {
    if length_flags == 0 {
        (None, 0)
    } else {
        let length = length_flags + 3;
        let available = if length < bytes.len() { length as int } else { bytes.len() as int };
        let (id, n) = spec_read_connection_id(bytes.take(available));
        (Some(id), n)
    }
}

/// What reading a packet header from the front of `bytes` gives.
///
/// The first byte holds the flags. With the long-header bit set, a version, a byte with the
/// lengths of the two connection ids, and the connection ids follow; version zero makes it a
/// version negotiation packet, whose versions take up the rest of the bytes; any other version
/// is followed by the payload length and the partial packet number, and the low seven flag bits
/// must name a packet type. Without it, the header is short: a connection id of up to eighteen
/// bytes and the partial packet number follow, and the key phase is the 0x40 flag bit.
#[verifier::opaque]
pub open spec fn spec_read_packet_header(bytes: Seq<u8>) -> Result<(PacketHeaderView, nat), Error> {
    if bytes.len() == 0 {
        Err(Error::FailedToReadPacketHeaderFlags)
    } else {
        let flags = bytes[0];
        let len = bytes.len() as int;
        if flags >= LONG_HEADER {
            match Version::spec_read(bytes.subrange(1, len)) {
                Err(e) => Err(e),
                Ok((version, n0)) => {
                    let p0 = 1 + n0;
                    if len < p0 + 1 {
                        Err(Error::FailedToReadU8)
                    } else {
                        let lengths = bytes[p0 as int];
                        let p1 = p0 + 1;
                        let (destination, n1) = spec_read_flagged_connection_id(
                            bytes.subrange(p1 as int, len),
                            lengths / 16,
                        );
                        let p2 = p1 + n1;
                        let (source, n2) = spec_read_flagged_connection_id(
                            bytes.subrange(p2 as int, len),
                            lengths % 16,
                        );
                        let p3 = p2 + n2;
                        if version.0 == 0 {
                            match spec_collect::<Version>(bytes.subrange(p3 as int, len)) {
                                Err(e) => Err(e),
                                Ok(versions) => Ok(
                                    (
                                        PacketHeaderView::VersionNegotiation(
                                            VersionNegotiationPacketView {
                                                destination_connection_id: destination,
                                                source_connection_id: source,
                                                supported_versions: versions,
                                            },
                                        ),
                                        bytes.len(),
                                    ),
                                ),
                            }
                        } else {
                            match spec_packet_type_of_bits((flags % 128) as u8) {
                                None => Err(Error::InvalidLongHeaderPacketType((flags % 128) as u8)),
                                Some(packet_type) => match VarInt::spec_read(bytes.subrange(p3 as int, len)) {
                                    Err(e) => Err(e),
                                    Ok((payload_length, n3)) => {
                                        let p4 = p3 + n3;
                                        match PartialPacketNumber::spec_read(bytes.subrange(p4 as int, len)) {
                                            Err(e) => Err(e),
                                            Ok((partial, n4)) => Ok(
                                                (
                                                    PacketHeaderView::Long(
                                                        LongHeaderView {
                                                            packet_type,
                                                            version,
                                                            destination_connection_id: destination,
                                                            source_connection_id: source,
                                                            payload_length,
                                                            partial_packet_number: partial,
                                                        },
                                                    ),
                                                    p4 + n4,
                                                ),
                                            ),
                                        }
                                    },
                                },
                            }
                        }
                    }
                },
            }
        } else {
            let (id, n1) = spec_read_connection_id(bytes.subrange(1, len));
            let p1 = 1 + n1;
            match PartialPacketNumber::spec_read(bytes.subrange(p1 as int, len)) {
                Err(e) => Err(e),
                Ok((partial, n2)) => Ok(
                    (
                        PacketHeaderView::Short(
                            ShortHeaderView {
                                key_phase: flags >= KEY_PHASE,
                                destination_connection_id: Some(id),
                                partial_packet_number: partial,
                            },
                        ),
                        p1 + n2,
                    ),
                ),
            }
        }
    }
}

/// The bytes of a connection id that may be absent: none when it is.
pub open spec fn spec_connection_id_bytes(id: Option<Seq<u8>>) -> Seq<u8> {
    match id {
        Some(id) => id,
        None => Seq::empty(),
    }
}

/// The byte with the lengths of the two connection ids: a nibble of 0xf (eighteen bytes) for each
/// one present, zero for each one absent.
pub open spec fn spec_connection_id_lengths(destination: Option<Seq<u8>>, source: Option<Seq<u8>>) -> u8 {
    ((if destination is Some { 0xf0u8 } else { 0u8 }) + (if source is Some { 0x0fu8 } else { 0u8 })) as u8
}

/// The bytes a packet header is written as, or the error that writing it gives: that the payload
/// length of a long header does not fit in a variable-length integer.
pub open spec fn spec_write_packet_header(header: PacketHeaderView) -> Result<Seq<u8>, Error> {
    match header {
        PacketHeaderView::VersionNegotiation(h) => {
            let front = seq![LONG_HEADER] + Version::spec_write(Version(0))->Ok_0 + seq![
                spec_connection_id_lengths(h.destination_connection_id, h.source_connection_id),
            ] + spec_connection_id_bytes(h.destination_connection_id) + spec_connection_id_bytes(
                h.source_connection_id,
            );
            match spec_write_all::<Version>(h.supported_versions) {
                Ok(versions) => Ok(front + versions),
                Err(e) => Err(e),
            }
        },
        PacketHeaderView::Long(h) => {
            let front = seq![(LONG_HEADER + spec_packet_type_bits(h.packet_type)) as u8]
                + Version::spec_write(h.version)->Ok_0 + seq![
                spec_connection_id_lengths(h.destination_connection_id, h.source_connection_id),
            ] + spec_connection_id_bytes(h.destination_connection_id) + spec_connection_id_bytes(
                h.source_connection_id,
            );
            match VarInt::spec_write(h.payload_length) {
                Ok(length) => Ok(
                    front + length + PartialPacketNumber::spec_write(h.partial_packet_number)->Ok_0,
                ),
                Err(e) => Err(e),
            }
        },
        PacketHeaderView::Short(h) => Ok(
            seq![if h.key_phase { KEY_PHASE } else { 0u8 }] + spec_connection_id_bytes(
                h.destination_connection_id,
            ) + PartialPacketNumber::spec_write(h.partial_packet_number)->Ok_0,
        ),
    }
}

/// The destination connection id of a header.
pub open spec fn spec_destination_connection_id(header: PacketHeaderView) -> Option<Seq<u8>> {
    match header {
        PacketHeaderView::Long(h) => h.destination_connection_id,
        PacketHeaderView::Short(h) => h.destination_connection_id,
        PacketHeaderView::VersionNegotiation(h) => h.destination_connection_id,
    }
}

/// The payload length of a long header; other headers have none.
pub open spec fn spec_payload_length(header: PacketHeaderView) -> Option<u64> {
    match header {
        PacketHeaderView::Long(h) => Some(h.payload_length),
        _ => None,
    }
}

/// The source connection id of a header; a short header has none.
pub open spec fn spec_source_connection_id(header: PacketHeaderView) -> Option<Seq<u8>> {
    match header {
        PacketHeaderView::Long(h) => h.source_connection_id,
        PacketHeaderView::Short(h) => None,
        PacketHeaderView::VersionNegotiation(h) => h.source_connection_id,
    }
}

impl PacketHeader {
    pub fn destination_connection_id(&self) -> (r: Option<ConnectionId>)
        ensures
            connection_id_view(r) == spec_destination_connection_id(self@),
    {
        match self {
            PacketHeader::Long(long_header) => long_header.destination_connection_id,
            PacketHeader::Short(short_header) => short_header.destination_connection_id,
            PacketHeader::VersionNegotiation(version_negotiation) => {
                version_negotiation.destination_connection_id
            },
        }
    }

    /// The payload length a long header gives; other headers give none.
    pub fn payload_length(&self) -> (r: Option<u64>)
        ensures
            r == spec_payload_length(self@),
    {
        match self {
            PacketHeader::Long(long_header) => Some(long_header.payload_length),
            _ => None,
        }
    }

    pub fn source_connection_id(&self) -> (r: Option<ConnectionId>)
        ensures
            connection_id_view(r) == spec_source_connection_id(self@),
    {
        match self {
            PacketHeader::Long(long_header) => long_header.source_connection_id,
            PacketHeader::Short(_) => None,
            PacketHeader::VersionNegotiation(version_negotiation) => {
                version_negotiation.source_connection_id
            },
        }
    }
}

/// Reads a connection id whose length nibble is `length_flags` from the front of `bytes`.
fn read_connection_id(bytes: &[u8], length_flags: u8) -> (r: Result<(Option<ConnectionId>, usize), Error>)
    requires
        length_flags < 16,
    ensures
        r matches Ok((id, n)) && (connection_id_view(id), n as nat) == spec_read_flagged_connection_id(
            bytes@,
            length_flags,
        ),
{
    if length_flags == 0 {
        Ok((None, 0))
    } else {
        // Non-zero encoded lengths are increased by 3 to get the full length of the connection ID
        let length = (length_flags + 3) as usize;
        let available = if length < bytes.len() {
            length
        } else {
            bytes.len()
        };
        let window = slice_subrange(bytes, 0, available);
        proof {
            assert(window@ =~= bytes@.take(available as int));
        }
        match ConnectionId::read(window) {
            Ok((id, n)) => Ok((Some(id), n)),
            Err(e) => Err(e),
        }
    }
}

impl Readable for PacketHeader {
    open spec fn spec_read(bytes: Seq<u8>) -> Result<(PacketHeaderView, nat), Error> {
        spec_read_packet_header(bytes)
    }

    proof fn lemma_read_bounds(bytes: Seq<u8>) {
        reveal(spec_read_packet_header);
        let len = bytes.len() as int;
        if bytes.len() > 0 {
            if bytes[0] >= LONG_HEADER {
                Version::lemma_read_bounds(bytes.subrange(1, len));
                if let Ok((version, n0)) = Version::spec_read(bytes.subrange(1, len)) {
                    let p0 = 1 + n0;
                    if len >= p0 + 1 {
                        let lengths = bytes[p0 as int];
                        let p1 = p0 + 1;
                        let (destination, n1) = spec_read_flagged_connection_id(
                            bytes.subrange(p1 as int, len),
                            lengths / 16,
                        );
                        let p2 = p1 + n1;
                        let (source, n2) = spec_read_flagged_connection_id(
                            bytes.subrange(p2 as int, len),
                            lengths % 16,
                        );
                        let p3 = p2 + n2;
                        VarInt::lemma_read_bounds(bytes.subrange(p3 as int, len));
                        if let Ok((payload_length, n3)) = VarInt::spec_read(bytes.subrange(p3 as int, len)) {
                            PartialPacketNumber::lemma_read_bounds(bytes.subrange((p3 + n3) as int, len));
                        }
                    }
                }
            } else {
                let (id, n1) = spec_read_connection_id(bytes.subrange(1, len));
                PartialPacketNumber::lemma_read_bounds(bytes.subrange((1 + n1) as int, len));
            }
        }
    }

    fn read(bytes: &[u8]) -> (res: Result<(PacketHeader, usize), Error>) {
        reveal(spec_read_packet_header);
        let len = bytes.len();
        if len == 0 {
            return Err(Error::FailedToReadPacketHeaderFlags);
        }
        let flags = bytes[0];
        if flags & LONG_HEADER != 0 {
            assert(flags & LONG_HEADER != 0 ==> flags >= LONG_HEADER) by (bit_vector);
            let (version, n0) = match Version::read(slice_subrange(bytes, 1, len)) {
                Ok(read) => read,
                Err(e) => {
                    return Err(e);
                },
            };
            proof {
                Version::lemma_read_bounds(bytes@.subrange(1, len as int));
            }
            let p0 = 1 + n0;
            let (lengths, _) = match u8::read(slice_subrange(bytes, p0, len)) {
                Ok(read) => read,
                Err(e) => {
                    return Err(e);
                },
            };
            let p1 = p0 + 1;
            let destination_flags = (lengths >> 4) & 0xf;
            let source_flags = lengths & 0xf;
            assert(destination_flags == lengths / 16 && source_flags == lengths % 16) by (bit_vector)
                requires
                    destination_flags == (lengths >> 4u8) & 0xfu8,
                    source_flags == lengths & 0xfu8,
            ;
            let (destination_connection_id, n1) = match read_connection_id(
                slice_subrange(bytes, p1, len),
                destination_flags,
            ) {
                Ok(read) => read,
                Err(e) => {
                    return Err(e);
                },
            };
            let p2 = p1 + n1;
            let (source_connection_id, n2) = match read_connection_id(
                slice_subrange(bytes, p2, len),
                source_flags,
            ) {
                Ok(read) => read,
                Err(e) => {
                    return Err(e);
                },
            };
            let p3 = p2 + n2;
            if version.is_version_negotation() {
                let supported_versions = match collect_from_bytes::<Version>(slice_subrange(bytes, p3, len)) {
                    Ok(versions) => versions,
                    Err(e) => {
                        return Err(e);
                    },
                };
                proof {
                    assert(views(supported_versions@) =~= supported_versions@);
                }
                Ok(
                    (
                        PacketHeader::VersionNegotiation(
                            VersionNegotiationPacket {
                                destination_connection_id,
                                source_connection_id,
                                supported_versions,
                            },
                        ),
                        len,
                    ),
                )
            } else {
                let type_bits = flags & 0x7F;
                assert(type_bits == flags % 128) by (bit_vector)
                    requires
                        type_bits == flags & 0x7Fu8,
                ;
                let packet_type = if type_bits == LONG_PACKET_TYPE_INITIAL {
                    LongHeaderPacketType::Initial
                } else if type_bits == LONG_PACKET_TYPE_RETRY {
                    LongHeaderPacketType::Retry
                } else if type_bits == LONG_PACKET_TYPE_HANDSHAKE {
                    LongHeaderPacketType::Handshake
                } else if type_bits == LONG_PACKET_TYPE_ZERO_RTT_PROTECTED {
                    LongHeaderPacketType::ZeroRttProtected
                } else {
                    return Err(Error::InvalidLongHeaderPacketType(type_bits));
                };
                let (payload_length, n3) = match VarInt::read(slice_subrange(bytes, p3, len)) {
                    Ok(read) => read,
                    Err(e) => {
                        return Err(e);
                    },
                };
                proof {
                    VarInt::lemma_read_bounds(bytes@.subrange(p3 as int, len as int));
                }
                let p4 = p3 + n3;
                let (partial_packet_number, n4) = match PartialPacketNumber::read(
                    slice_subrange(bytes, p4, len),
                ) {
                    Ok(read) => read,
                    Err(e) => {
                        return Err(e);
                    },
                };
                proof {
                    PartialPacketNumber::lemma_read_bounds(bytes@.subrange(p4 as int, len as int));
                }
                Ok(
                    (
                        PacketHeader::Long(
                            LongHeader {
                                packet_type,
                                version,
                                destination_connection_id,
                                source_connection_id,
                                payload_length: payload_length.into_inner(),
                                partial_packet_number,
                            },
                        ),
                        p4 + n4,
                    ),
                )
            }
        } else {
            assert(flags & LONG_HEADER == 0 ==> flags < LONG_HEADER) by (bit_vector);
            let key_phase = flags & KEY_PHASE != 0;
            assert(flags < 0x80 ==> ((flags & KEY_PHASE != 0) == (flags >= KEY_PHASE))) by (bit_vector);
            let (id, n1) = match ConnectionId::read(slice_subrange(bytes, 1, len)) {
                Ok(read) => read,
                Err(e) => {
                    return Err(e);
                },
            };
            let p1 = 1 + n1;
            let (partial_packet_number, n2) = match PartialPacketNumber::read(
                slice_subrange(bytes, p1, len),
            ) {
                Ok(read) => read,
                Err(e) => {
                    return Err(e);
                },
            };
            proof {
                PartialPacketNumber::lemma_read_bounds(bytes@.subrange(p1 as int, len as int));
            }
            Ok(
                (
                    PacketHeader::Short(
                        ShortHeader {
                            key_phase,
                            destination_connection_id: Some(id),
                            partial_packet_number,
                        },
                    ),
                    p1 + n2,
                ),
            )
        }
    }
}

/// The byte with the lengths of the two connection ids, as `spec_connection_id_lengths` gives it.
fn connection_id_lengths(destination: &Option<ConnectionId>, source: &Option<ConnectionId>) -> (r: u8)
    ensures
        r == spec_connection_id_lengths(connection_id_view(*destination), connection_id_view(*source)),
{
    let mut lengths = 0u8;
    if destination.is_some() {
        lengths = lengths + 0xf0;
    }
    if source.is_some() {
        lengths = lengths + 0x0f;
    }
    lengths
}

/// Appends the flags byte, the version, the connection id lengths and the connection ids that
/// every long header (and version negotiation packet) starts with.
fn write_long_front(
    flags: u8,
    version: Version,
    destination: &Option<ConnectionId>,
    source: &Option<ConnectionId>,
    out: &mut Vec<u8>,
)
    ensures
        final(out)@ == old(out)@ + (seq![flags] + Version::spec_write(version)->Ok_0 + seq![
            spec_connection_id_lengths(connection_id_view(*destination), connection_id_view(*source)),
        ] + spec_connection_id_bytes(connection_id_view(*destination)) + spec_connection_id_bytes(
            connection_id_view(*source),
        )),
{
    let ghost start = out@;
    let _ = flags.write(out);
    let _ = version.write(out);
    let _ = connection_id_lengths(destination, source).write(out);
    let _ = destination.write(out);
    let _ = source.write(out);
    proof {
        assert(out@ =~= start + (seq![flags] + Version::spec_write(version)->Ok_0 + seq![
            spec_connection_id_lengths(connection_id_view(*destination), connection_id_view(*source)),
        ] + spec_connection_id_bytes(connection_id_view(*destination)) + spec_connection_id_bytes(
            connection_id_view(*source),
        )));
    }
}

/// Appends a version negotiation packet's header.
fn write_version_negotiation(version_negotiation: &VersionNegotiationPacket, out: &mut Vec<u8>) -> (r: Result<(), Error>)
    ensures
        write_matches(
            spec_write_packet_header(PacketHeaderView::VersionNegotiation(version_negotiation@)),
            old(out)@,
            final(out)@,
            r,
        ),
{
    let ghost start = out@;
    write_long_front(
        LONG_HEADER,
        Version::negotiation(),
        &version_negotiation.destination_connection_id,
        &version_negotiation.source_connection_id,
        out,
    );
    let ghost front = out@;
    let ghost front_bytes = seq![LONG_HEADER] + Version::spec_write(Version(0))->Ok_0 + seq![
        spec_connection_id_lengths(
            connection_id_view(version_negotiation.destination_connection_id),
            connection_id_view(version_negotiation.source_connection_id),
        ),
    ] + spec_connection_id_bytes(connection_id_view(version_negotiation.destination_connection_id))
        + spec_connection_id_bytes(connection_id_view(version_negotiation.source_connection_id));
    let written = write_all(version_negotiation.supported_versions.as_slice(), out);
    proof {
        if written is Ok {
            assert(out@ =~= start + (front_bytes
                + spec_write_all::<Version>(version_negotiation.supported_versions@)->Ok_0));
        }
        assert(start.is_prefix_of(out@)) by {
            assert forall|k: int| 0 <= k < start.len() implies out@[k] == start[k] by {
                assert(front[k] == start[k]);
                assert(out@.subrange(0, front.len() as int)[k] == out@[k]);
            }
            assert(start =~= out@.subrange(0, start.len() as int));
        }
    }
    written
}

/// Appends a long header.
fn write_long_header(long_header: &LongHeader, out: &mut Vec<u8>) -> (r: Result<(), Error>)
    ensures
        write_matches(spec_write_packet_header(PacketHeaderView::Long(long_header@)), old(out)@, final(out)@, r),
{
    let ghost start = out@;
    let flags = LONG_HEADER + match long_header.packet_type {
        LongHeaderPacketType::Initial => LONG_PACKET_TYPE_INITIAL,
        LongHeaderPacketType::Retry => LONG_PACKET_TYPE_RETRY,
        LongHeaderPacketType::Handshake => LONG_PACKET_TYPE_HANDSHAKE,
        LongHeaderPacketType::ZeroRttProtected => LONG_PACKET_TYPE_ZERO_RTT_PROTECTED,
    };
    write_long_front(
        flags,
        long_header.version,
        &long_header.destination_connection_id,
        &long_header.source_connection_id,
        out,
    );
    let ghost front = out@;
    let ghost front_bytes = seq![flags] + Version::spec_write(long_header.version)->Ok_0 + seq![
        spec_connection_id_lengths(
            connection_id_view(long_header.destination_connection_id),
            connection_id_view(long_header.source_connection_id),
        ),
    ] + spec_connection_id_bytes(connection_id_view(long_header.destination_connection_id))
        + spec_connection_id_bytes(connection_id_view(long_header.source_connection_id));
    proof {
        assert(start.is_prefix_of(front)) by {
            assert(start =~= front.subrange(0, start.len() as int));
        }
    }
    let payload_length = match VarInt::value_from(long_header.payload_length) {
        Ok(payload_length) => payload_length,
        Err(e) => {
            return Err(e);
        },
    };
    let _ = payload_length.write(out);
    let _ = long_header.partial_packet_number.write(out);
    proof {
        assert(out@ =~= start + (front_bytes + VarInt::spec_write(long_header.payload_length)->Ok_0
            + PartialPacketNumber::spec_write(long_header.partial_packet_number@)->Ok_0));
    }
    Ok(())
}

/// Appends a short header.
fn write_short_header(short_header: &ShortHeader, out: &mut Vec<u8>) -> (r: Result<(), Error>)
    ensures
        write_matches(spec_write_packet_header(PacketHeaderView::Short(short_header@)), old(out)@, final(out)@, r),
{
    let ghost start = out@;
    let flags = if short_header.key_phase {
        KEY_PHASE
    } else {
        0u8
    };
    let _ = flags.write(out);
    let _ = short_header.destination_connection_id.write(out);
    let _ = short_header.partial_packet_number.write(out);
    proof {
        assert(out@ =~= start + (seq![flags] + spec_connection_id_bytes(
            connection_id_view(short_header.destination_connection_id),
        ) + PartialPacketNumber::spec_write(short_header.partial_packet_number@)->Ok_0));
    }
    Ok(())
}

impl Writable for PacketHeader {
    open spec fn spec_write(value: PacketHeaderView) -> Result<Seq<u8>, Error> {
        spec_write_packet_header(value)
    }

    open spec fn write_requires(value: PacketHeaderView) -> bool {
        true
    }

    fn write(&self, out: &mut Vec<u8>) -> (res: Result<(), Error>) {
        match self {
            PacketHeader::VersionNegotiation(version_negotiation) => write_version_negotiation(
                version_negotiation,
                out,
            ),
            PacketHeader::Long(long_header) => write_long_header(long_header, out),
            PacketHeader::Short(short_header) => write_short_header(short_header, out),
        }
    }
}

/// Reading a connection id whose length nibble is 0xf from the front of its eighteen bytes,
/// whatever follows, gives it back.
proof fn lemma_flagged_connection_id_round_trip(id: Option<Seq<u8>>, rest: Seq<u8>)
    requires
        id matches Some(bytes) ==> bytes.len() == 18,
    ensures
        spec_read_flagged_connection_id(
            spec_connection_id_bytes(id) + rest,
            if id is Some { 15u8 } else { 0u8 },
        ) == (id, spec_connection_id_bytes(id).len()),
{
    if let Some(bytes) = id {
        let whole = bytes + rest;
        assert(whole.take(18) =~= bytes);
        assert(Seq::new(0, |i: int| 0u8) + bytes.take(18) =~= bytes);
    }
}

/// What the types hold of a header's view: connection ids of eighteen bytes and partial packet
/// numbers of at most 2^30 - 1.
pub open spec fn spec_header_well_formed(header: PacketHeaderView) -> bool {
    let valid_id = |id: Option<Seq<u8>>| id matches Some(bytes) ==> bytes.len() == 18;
    match header {
        PacketHeaderView::Long(h) => valid_id(h.destination_connection_id) && valid_id(
            h.source_connection_id,
        ) && h.partial_packet_number <= MAX_PARTIAL_PACKET_NUMBER,
        PacketHeaderView::Short(h) => valid_id(h.destination_connection_id)
            && h.partial_packet_number <= MAX_PARTIAL_PACKET_NUMBER,
        PacketHeaderView::VersionNegotiation(h) => valid_id(h.destination_connection_id) && valid_id(
            h.source_connection_id,
        ),
    }
}

/// The length byte holds a nibble of 0xf for each connection id present and zero otherwise.
proof fn lemma_connection_id_lengths(destination: Option<Seq<u8>>, source: Option<Seq<u8>>)
    ensures
        spec_connection_id_lengths(destination, source) / 16 == (if destination is Some { 15u8 } else { 0u8 }),
        spec_connection_id_lengths(destination, source) % 16 == (if source is Some { 15u8 } else { 0u8 }),
{
}

proof fn lemma_version_negotiation_round_trip(h: VersionNegotiationPacketView)
    requires
        spec_header_well_formed(PacketHeaderView::VersionNegotiation(h)),
    ensures
        spec_write_packet_header(PacketHeaderView::VersionNegotiation(h)) matches Ok(bytes)
            && spec_read_packet_header(bytes) == Ok::<(PacketHeaderView, nat), Error>(
            (PacketHeaderView::VersionNegotiation(h), bytes.len()),
        ),
{
    reveal(spec_read_packet_header);
    lemma_pow256_values();
    let d = h.destination_connection_id;
    let sc = h.source_connection_id;
    lemma_versions_round_trip(h.supported_versions);
    let versions = spec_write_all::<Version>(h.supported_versions)->Ok_0;
    let lengths = spec_connection_id_lengths(d, sc);
    let ds = spec_connection_id_bytes(d);
    let ss = spec_connection_id_bytes(sc);
    let vbytes = Version::spec_write(Version(0))->Ok_0;
    let tail = seq![lengths] + ds + ss + versions;
    lemma_version_round_trip(Version(0), tail);
    let bytes = seq![LONG_HEADER] + vbytes + seq![lengths] + ds + ss + versions;
    assert(bytes.subrange(1, bytes.len() as int) =~= vbytes + tail);
    assert(bytes[5] == lengths);
    lemma_connection_id_lengths(d, sc);
    lemma_flagged_connection_id_round_trip(d, ss + versions);
    assert(bytes.subrange(6, bytes.len() as int) =~= ds + (ss + versions));
    lemma_flagged_connection_id_round_trip(sc, versions);
    assert(bytes.subrange((6 + ds.len()) as int, bytes.len() as int) =~= ss + versions);
    assert(bytes.subrange((6 + ds.len() + ss.len()) as int, bytes.len() as int) =~= versions);
}

/// A long header is read back from bytes whose parts each read back.
proof fn lemma_read_long_header_parts(whole: Seq<u8>, h: LongHeaderView, n0: nat, n1: nat, n2: nat, n3: nat, n4: nat)
    requires
        whole.len() > 0,
        whole[0] >= LONG_HEADER,
        spec_packet_type_of_bits((whole[0] % 128) as u8) == Some(h.packet_type),
        h.version.0 != 0,
        Version::spec_read(whole.subrange(1, whole.len() as int)) == Ok::<(Version, nat), Error>((h.version, n0)),
        whole.len() >= 1 + n0 + 1,
        spec_read_flagged_connection_id(whole.subrange((2 + n0) as int, whole.len() as int), whole[(1 + n0) as int] / 16)
            == (h.destination_connection_id, n1),
        spec_read_flagged_connection_id(whole.subrange((2 + n0 + n1) as int, whole.len() as int), whole[(1 + n0) as int] % 16)
            == (h.source_connection_id, n2),
        VarInt::spec_read(whole.subrange((2 + n0 + n1 + n2) as int, whole.len() as int))
            == Ok::<(u64, nat), Error>((h.payload_length, n3)),
        PartialPacketNumber::spec_read(whole.subrange((2 + n0 + n1 + n2 + n3) as int, whole.len() as int))
            == Ok::<(u32, nat), Error>((h.partial_packet_number, n4)),
    ensures
        spec_read_packet_header(whole) == Ok::<(PacketHeaderView, nat), Error>(
            (PacketHeaderView::Long(h), 2 + n0 + n1 + n2 + n3 + n4),
        ),
{
    reveal(spec_read_packet_header);
}

/// Where the parts of a long header's bytes, with more bytes after them, start.
proof fn lemma_long_header_layout(
    flags: u8,
    vbytes: Seq<u8>,
    lengths: u8,
    ds: Seq<u8>,
    ss: Seq<u8>,
    lbytes: Seq<u8>,
    pbytes: Seq<u8>,
    rest: Seq<u8>,
)
    requires
        vbytes.len() == 4,
    ensures
        ({
            let whole = seq![flags] + vbytes + seq![lengths] + ds + ss + lbytes + pbytes + rest;
            let len = whole.len() as int;
            &&& whole.len() > 0
            &&& whole[0] == flags
            &&& whole.subrange(1, len) == vbytes + (seq![lengths] + (ds + (ss + (lbytes + (pbytes + rest)))))
            &&& whole[5] == lengths
            &&& whole.subrange(6, len) == ds + (ss + (lbytes + (pbytes + rest)))
            &&& whole.subrange((6 + ds.len()) as int, len) == ss + (lbytes + (pbytes + rest))
            &&& whole.subrange((6 + ds.len() + ss.len()) as int, len) == lbytes + (pbytes + rest)
            &&& whole.subrange((6 + ds.len() + ss.len() + lbytes.len()) as int, len) == pbytes + rest
        }),
{
    let whole = seq![flags] + vbytes + seq![lengths] + ds + ss + lbytes + pbytes + rest;
    let len = whole.len() as int;
    assert(whole.subrange(1, len) =~= vbytes + (seq![lengths] + (ds + (ss + (lbytes + (pbytes + rest))))));
    assert(whole.subrange(6, len) =~= ds + (ss + (lbytes + (pbytes + rest))));
    assert(whole.subrange((6 + ds.len()) as int, len) =~= ss + (lbytes + (pbytes + rest)));
    assert(whole.subrange((6 + ds.len() + ss.len()) as int, len) =~= lbytes + (pbytes + rest));
    assert(whole.subrange((6 + ds.len() + ss.len() + lbytes.len()) as int, len) =~= pbytes + rest);
}

#[verifier::rlimit(50)]
proof fn lemma_long_header_round_trip(h: LongHeaderView, rest: Seq<u8>)
    requires
        spec_header_well_formed(PacketHeaderView::Long(h)),
        h.version.0 != 0,
    ensures
        spec_write_packet_header(PacketHeaderView::Long(h)) is Ok <==> h.payload_length <= VAR_INT_MAX_VALUE,
        spec_write_packet_header(PacketHeaderView::Long(h)) matches Ok(bytes)
            ==> spec_read_packet_header(bytes + rest) == Ok::<(PacketHeaderView, nat), Error>(
            (PacketHeaderView::Long(h), bytes.len()),
        ),
{
    lemma_pow256_values();
    let d = h.destination_connection_id;
    let sc = h.source_connection_id;
    let lengths = spec_connection_id_lengths(d, sc);
    let ds = spec_connection_id_bytes(d);
    let ss = spec_connection_id_bytes(sc);
    let vbytes = Version::spec_write(h.version)->Ok_0;
    let flags = (LONG_HEADER + spec_packet_type_bits(h.packet_type)) as u8;
    if h.payload_length <= VAR_INT_MAX_VALUE {
        let pbytes = spec_write_partial_packet_number(h.partial_packet_number);
        let lbytes = spec_write_var_int(h.payload_length)->Ok_0;
        let s4 = pbytes + rest;
        let s3 = lbytes + s4;
        let s2 = ss + s3;
        let s1 = ds + s2;
        let s0 = seq![lengths] + s1;
        lemma_partial_packet_number_round_trip(h.partial_packet_number, rest);
        lemma_var_int_round_trip(h.payload_length, s4);
        lemma_version_round_trip(h.version, s0);
        lemma_connection_id_lengths(d, sc);
        lemma_flagged_connection_id_round_trip(d, s2);
        lemma_flagged_connection_id_round_trip(sc, s3);
        let bytes = seq![flags] + vbytes + seq![lengths] + ds + ss + lbytes + pbytes;
        let whole = bytes + rest;
        lemma_long_header_layout(flags, vbytes, lengths, ds, ss, lbytes, pbytes, rest);
        assert(flags % 128 == spec_packet_type_bits(h.packet_type));
        lemma_read_long_header_parts(whole, h, 4, ds.len(), ss.len(), lbytes.len(), pbytes.len());
    }
}

proof fn lemma_short_header_round_trip(h: ShortHeaderView, rest: Seq<u8>)
    requires
        spec_header_well_formed(PacketHeaderView::Short(h)),
        h.destination_connection_id is Some,
    ensures
        spec_write_packet_header(PacketHeaderView::Short(h)) matches Ok(bytes)
            && spec_read_packet_header(bytes + rest) == Ok::<(PacketHeaderView, nat), Error>(
            (PacketHeaderView::Short(h), bytes.len()),
        ),
{
    reveal(spec_read_packet_header);
    lemma_pow256_values();
    let ds = spec_connection_id_bytes(h.destination_connection_id);
    let flags = if h.key_phase { KEY_PHASE } else { 0u8 };
    lemma_partial_packet_number_round_trip(h.partial_packet_number, rest);
    let pbytes = spec_write_partial_packet_number(h.partial_packet_number);
    let bytes = seq![flags] + ds + pbytes;
    let whole = bytes + rest;
    assert(whole.subrange(1, whole.len() as int) =~= ds + (pbytes + rest));
    assert((ds + (pbytes + rest)).take(18) =~= ds);
    assert(Seq::new(0, |i: int| 0u8) + ds.take(18) =~= ds);
    assert(whole.subrange(19, whole.len() as int) =~= pbytes + rest);
}

/// Writing a packet header and reading the bytes back gives the header again, and reads all the
/// bytes written; writing fails only for a long header whose payload length does not fit in a
/// variable-length integer. Left out are the headers that their bytes cannot tell apart from
/// others: a long header with version zero reads back as a version negotiation packet, and a short
/// header without a destination connection id reads its partial packet number as one.
pub proof fn lemma_packet_header_round_trip(header: PacketHeaderView)
    requires
        spec_header_well_formed(header),
        header matches PacketHeaderView::Long(h) ==> h.version.0 != 0,
        header matches PacketHeaderView::Short(h) ==> h.destination_connection_id is Some,
    ensures
        spec_write_packet_header(header) is Ok <==> !(header matches PacketHeaderView::Long(h)
            && h.payload_length > VAR_INT_MAX_VALUE),
        spec_write_packet_header(header) matches Ok(bytes) ==> spec_read_packet_header(bytes)
            == Ok::<(PacketHeaderView, nat), Error>((header, bytes.len())),
{
    match header {
        PacketHeaderView::VersionNegotiation(h) => lemma_version_negotiation_round_trip(h),
        PacketHeaderView::Long(h) => lemma_long_header_round_trip(h, Seq::empty()),
        PacketHeaderView::Short(h) => lemma_short_header_round_trip(h, Seq::empty()),
    }
    if let Ok(bytes) = spec_write_packet_header(header) {
        assert(bytes + Seq::<u8>::empty() =~= bytes);
    }
}

/// A long or short header is read back from its bytes whatever bytes follow them.
pub(crate) proof fn lemma_header_read_before_more(header: PacketHeaderView, rest: Seq<u8>)
    requires
        spec_header_well_formed(header),
        !(header is VersionNegotiation),
        header matches PacketHeaderView::Long(h) ==> h.version.0 != 0,
        header matches PacketHeaderView::Short(h) ==> h.destination_connection_id is Some,
    ensures
        spec_write_packet_header(header) matches Ok(bytes) ==> bytes.len() > 0 && spec_read_packet_header(bytes + rest)
            == Ok::<(PacketHeaderView, nat), Error>((header, bytes.len())),
{
    match header {
        PacketHeaderView::VersionNegotiation(h) => {},
        PacketHeaderView::Long(h) => lemma_long_header_round_trip(h, rest),
        PacketHeaderView::Short(h) => lemma_short_header_round_trip(h, rest),
    }
}

/// A packet written in front of more bytes is decoded from the front of them: its header as
/// written and its data, and then what the bytes after it decode to. The data runs to where a
/// long header's payload length, counted from the start of the header, ends it, so that length is
/// the length of the whole packet; after a short header it runs to the end of the datagram, so
/// such a packet comes last. Left out are a version negotiation packet, which takes the rest of
/// the datagram as its versions, and the headers that read back as others: a long header with
/// version zero and a short header without a destination connection id.
pub proof fn lemma_codec_round_trip(header: PacketHeaderView, data: Seq<u8>, rest: Seq<u8>)
    requires
        spec_header_well_formed(header),
        spec_write_packet_header(header) is Ok,
        !(header is VersionNegotiation),
        header matches PacketHeaderView::Long(h) ==> h.version.0 != 0 && h.payload_length
            == spec_write_packet_header(header)->Ok_0.len() + data.len(),
        header matches PacketHeaderView::Short(h) ==> h.destination_connection_id is Some && rest.len() == 0,
    ensures
        spec_decode_datagram(spec_write_packet_header(header)->Ok_0 + data + rest) == spec_prepend(
            seq![DecodedPacketView { packet_header: header, data }],
            spec_decode_datagram(rest),
        ),
{
    let bytes = spec_write_packet_header(header)->Ok_0;
    let buf = bytes + data + rest;
    lemma_header_read_before_more(header, data + rest);
    assert(bytes + (data + rest) =~= buf);
    let end = (bytes.len() + data.len()) as int;
    lemma_decode_front(buf, header, bytes.len(), end);
    assert(buf.subrange(bytes.len() as int, end) =~= data);
    assert(buf.subrange(end, buf.len() as int) =~= rest);
}

/// The first byte of a long header: the long-header bit 0x80 with the packet type in the seven
/// bits below it, 0x7F for Initial, 0x7E for Retry, 0x7D for Handshake and 0x7C for 0-RTT
/// protected. Writing a long header puts that byte first, and a long header read back from bytes
/// has the packet type that their first byte carries.
pub proof fn lemma_long_header_first_byte(h: LongHeaderView, bytes: Seq<u8>)
    ensures
        spec_write_packet_header(PacketHeaderView::Long(h)) matches Ok(written) ==> written.len() > 0
            && written[0] == match h.packet_type {
                LongHeaderPacketType::Initial => 0xFFu8,
                LongHeaderPacketType::Retry => 0xFEu8,
                LongHeaderPacketType::Handshake => 0xFDu8,
                LongHeaderPacketType::ZeroRttProtected => 0xFCu8,
            },
        spec_read_packet_header(bytes) matches Ok((PacketHeaderView::Long(read), _)) ==> bytes.len() > 0
            && bytes[0] == match read.packet_type {
                LongHeaderPacketType::Initial => 0xFFu8,
                LongHeaderPacketType::Retry => 0xFEu8,
                LongHeaderPacketType::Handshake => 0xFDu8,
                LongHeaderPacketType::ZeroRttProtected => 0xFCu8,
            },
        bytes.len() > 0 && bytes[0] >= 0x80 && !(0xFC <= bytes[0]) ==> !(spec_read_packet_header(bytes) matches Ok((PacketHeaderView::Long(_), _))),
{
    reveal(spec_read_packet_header);
}

} // verus!
