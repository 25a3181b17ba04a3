use vstd::prelude::*;
use vstd::slice::slice_subrange;
use crate::crypto::diversification_nonce::{DiversificationNonce, spec_read_diversification_nonce};
use crate::errors::Error;
use crate::packets::long_header::connection_id_view;
use crate::packets::packet_number_length::{PacketNumberLength, spec_length_bytes};
use crate::packets::partial_packet_number::{
    PartialPacketNumber, spec_read_legacy_partial, spec_write_legacy_partial,
};
use crate::primitives::byte_order_primitives::{be_bytes, lemma_be_bytes_value, lemma_pow256_values, pow256};
use crate::protocol::connection_id::{ConnectionId, spec_read_connection_id};
use crate::protocol::readable::Readable;
use crate::protocol::version::{Version, lemma_version_round_trip};
use crate::protocol::writable::Writable;

verus! {

/// The public header of a packet in the older packet layout.
#[derive(Debug)]
pub struct PublicHeader {
    pub reset_flag: bool,
    pub connection_id: Option<ConnectionId>,
    pub version: Option<Version>,
    pub diversification_nonce: Option<DiversificationNonce>,
    pub partial_packet_number: PartialPacketNumber,
}

/// What a public header holds.
pub struct PublicHeaderView {
    pub reset_flag: bool,
    pub connection_id: Option<Seq<u8>>,
    pub version: Option<Version>,
    pub diversification_nonce: Option<Seq<u8>>,
    pub partial_packet_number: (PacketNumberLength, u64),
}

impl View for PublicHeader {
    type V = PublicHeaderView;

    open spec fn view(&self) -> PublicHeaderView {
        PublicHeaderView {
            reset_flag: self.reset_flag,
            connection_id: connection_id_view(self.connection_id),
            version: self.version,
            diversification_nonce: match self.diversification_nonce {
                Some(nonce) => Some(nonce@),
                None => None,
            },
            partial_packet_number: self.partial_packet_number@,
        }
    }
}

pub const PUBLIC_FLAG_VERSION: u8 = 0x01;

pub const PUBLIC_FLAG_RESET: u8 = 0x02;

pub const HAS_DIVERSIFICATION_NONCE: u8 = 0x04;

pub const HAS_CONNECTION_ID: u8 = 0x08;

pub const TWO_BYTE_PACKET_NUMBER: u8 = 0x10;

pub const FOUR_BYTE_PACKET_NUMBER: u8 = 0x20;

pub const SIX_BYTE_PACKET_NUMBER: u8 = 0x30;

/// Whether the flags share a bit with `mask`.
pub open spec fn spec_intersects(flags: u8, mask: u8) -> bool {
    flags & mask != 0
}

/// The length of the partial packet number the flags give. Any of the two length bits gives six
/// bytes, as the six-byte mask, which holds both, is tested first.
pub open spec fn spec_length_of_flags(flags: u8) -> PacketNumberLength {
    if spec_intersects(flags, SIX_BYTE_PACKET_NUMBER) {
        PacketNumberLength::SixBytes
    } else if spec_intersects(flags, FOUR_BYTE_PACKET_NUMBER) {
        PacketNumberLength::FourBytes
    } else if spec_intersects(flags, TWO_BYTE_PACKET_NUMBER) {
        PacketNumberLength::TwoBytes
    } else {
        PacketNumberLength::OneByte
    }
}

/// What reading a public header from the front of `bytes` gives. After the flags come a
/// connection id (of up to eighteen bytes) if the connection id flag is set, a version if the
/// version flag is set, a diversification nonce if its flag is set, and the partial packet number
/// with the length the flags give. The reset flag is read from the version flag bit.
pub open spec fn spec_read_public_header(bytes: Seq<u8>) -> Result<(PublicHeaderView, nat), Error> {
    if bytes.len() == 0 {
        Err(Error::UnableToReadPublicPacketHeaderFlags)
    } else {
        let flags = bytes[0];
        let len = bytes.len() as int;
        let (connection_id, p1): (Option<Seq<u8>>, int) = if spec_intersects(flags, HAS_CONNECTION_ID) {
            let (id, n) = spec_read_connection_id(bytes.subrange(1, len));
            (Some(id), 1 + n as int)
        } else {
            (None, 1)
        };
        let version: Result<(Option<Version>, int), Error> = if spec_intersects(flags, PUBLIC_FLAG_VERSION) {
            match Version::spec_read(bytes.subrange(p1, len)) {
                Ok((v, n)) => Ok((Some(v), p1 + n as int)),
                Err(e) => Err(e),
            }
        } else {
            Ok((None, p1))
        };
        match version {
            Err(e) => Err(e),
            Ok((version, p2)) => {
                let nonce: Result<(Option<Seq<u8>>, int), Error> = if spec_intersects(flags, HAS_DIVERSIFICATION_NONCE) {
                    match spec_read_diversification_nonce(bytes.subrange(p2, len)) {
                        Ok((d, n)) => Ok((Some(d), p2 + n as int)),
                        Err(e) => Err(e),
                    }
                } else {
                    Ok((None, p2))
                };
                match nonce {
                    Err(e) => Err(e),
                    Ok((diversification_nonce, p3)) => match spec_read_legacy_partial(
                        bytes.subrange(p3, len),
                        spec_length_of_flags(flags),
                    ) {
                        Err(e) => Err(e),
                        Ok((partial_packet_number, n)) => Ok(
                            (
                                PublicHeaderView {
                                    reset_flag: spec_intersects(flags, PUBLIC_FLAG_VERSION),
                                    connection_id,
                                    version,
                                    diversification_nonce,
                                    partial_packet_number,
                                },
                                (p3 + n) as nat,
                            ),
                        ),
                    },
                }
            },
        }
    }
}

/// The flag bits of a partial packet number's length.
pub open spec fn spec_length_flags(length: PacketNumberLength) -> u8 {
    match length {
        PacketNumberLength::OneByte => 0,
        PacketNumberLength::TwoBytes => TWO_BYTE_PACKET_NUMBER,
        PacketNumberLength::FourBytes => FOUR_BYTE_PACKET_NUMBER,
        PacketNumberLength::SixBytes => SIX_BYTE_PACKET_NUMBER,
    }
}

/// The flags byte of a public header.
pub open spec fn spec_public_flags(header: PublicHeaderView) -> u8 {
    (if header.version is Some { PUBLIC_FLAG_VERSION } else { 0u8 }) | (if header.reset_flag {
        PUBLIC_FLAG_RESET
    } else {
        0u8
    }) | (if header.diversification_nonce is Some { HAS_DIVERSIFICATION_NONCE } else { 0u8 }) | (
    if header.connection_id is Some { HAS_CONNECTION_ID } else { 0u8 }) | spec_length_flags(
        header.partial_packet_number.0,
    )
}

/// The bytes a public header is written as: the flags, then the connection id, the version and
/// the diversification nonce that are there, and the partial packet number.
pub open spec fn spec_write_public_header(header: PublicHeaderView) -> Seq<u8> {
    seq![spec_public_flags(header)] + match header.connection_id {
        Some(id) => id,
        None => Seq::empty(),
    } + match header.version {
        Some(v) => Version::spec_write(v)->Ok_0,
        None => Seq::empty(),
    } + match header.diversification_nonce {
        Some(nonce) => nonce,
        None => Seq::empty(),
    } + spec_write_legacy_partial(header.partial_packet_number)
}

impl PublicHeader {
    /// Reads a public header from the front of `bytes`.
    pub fn read(bytes: &[u8]) -> (r: Result<(PublicHeader, usize), Error>)
        ensures
            match spec_read_public_header(bytes@) {
                Ok((header, n)) => r matches Ok((h, m)) && h@ == header && m == n,
                Err(e) => r matches Err(re) && re == e,
            },
    {
        let len = bytes.len();
        if len == 0 {
            return Err(Error::UnableToReadPublicPacketHeaderFlags);
        }
        let flags = bytes[0];
        let reset_flag = flags & PUBLIC_FLAG_VERSION != 0;
        let mut position: usize = 1;
        let connection_id = if flags & HAS_CONNECTION_ID != 0 {
            match ConnectionId::read(slice_subrange(bytes, 1, len)) {
                Ok((id, n)) => {
                    position = position + n;
                    Some(id)
                },
                Err(e) => {
                    return Err(e);
                },
            }
        } else {
            None
        };
        let version = if flags & PUBLIC_FLAG_VERSION != 0 {
            match Version::read(slice_subrange(bytes, position, len)) {
                Ok((version, n)) => {
                    position = position + n;
                    Some(version)
                },
                Err(e) => {
                    return Err(e);
                },
            }
        } else {
            None
        };
        let diversification_nonce = if flags & HAS_DIVERSIFICATION_NONCE != 0 {
            match DiversificationNonce::read(slice_subrange(bytes, position, len)) {
                Ok((nonce, n)) => {
                    position = position + n;
                    Some(nonce)
                },
                Err(e) => {
                    return Err(e);
                },
            }
        } else {
            None
        };
        let partial_packet_number_length = if flags & SIX_BYTE_PACKET_NUMBER != 0 {
            PacketNumberLength::SixBytes
        } else if flags & FOUR_BYTE_PACKET_NUMBER != 0 {
            PacketNumberLength::FourBytes
        } else if flags & TWO_BYTE_PACKET_NUMBER != 0 {
            PacketNumberLength::TwoBytes
        } else {
            PacketNumberLength::OneByte
        };
        let (partial_packet_number, n) = match PartialPacketNumber::read(
            slice_subrange(bytes, position, len),
            partial_packet_number_length,
        ) {
            Ok(read) => read,
            Err(e) => {
                return Err(e);
            },
        };
        Ok(
            (
                PublicHeader {
                    reset_flag,
                    connection_id,
                    version,
                    diversification_nonce,
                    partial_packet_number,
                },
                position + n,
            ),
        )
    }

    /// Appends the bytes of the public header.
    pub fn write(&self, out: &mut Vec<u8>)
        ensures
            final(out)@ == old(out)@ + spec_write_public_header(self@),
    {
        let ghost start = out@;
        let version_flag = if self.version.is_some() {
            PUBLIC_FLAG_VERSION
        } else {
            0u8
        };
        let reset_flag = if self.reset_flag {
            PUBLIC_FLAG_RESET
        } else {
            0u8
        };
        let nonce_flag = if self.diversification_nonce.is_some() {
            HAS_DIVERSIFICATION_NONCE
        } else {
            0u8
        };
        let connection_id_flag = if self.connection_id.is_some() {
            HAS_CONNECTION_ID
        } else {
            0u8
        };
        let length_flags = match self.partial_packet_number {
            PartialPacketNumber::OneByte(_) => 0u8,
            PartialPacketNumber::TwoBytes(_) => TWO_BYTE_PACKET_NUMBER,
            PartialPacketNumber::FourBytes(_) => FOUR_BYTE_PACKET_NUMBER,
            PartialPacketNumber::SixBytes(_) => SIX_BYTE_PACKET_NUMBER,
        };
        let flags = version_flag | reset_flag | nonce_flag | connection_id_flag | length_flags;
        let _ = flags.write(out);
        if let Some(connection_id) = self.connection_id {
            let _ = connection_id.write(out);
        }
        if let Some(version) = self.version {
            let _ = version.write(out);
        }
        if let Some(diversification_nonce) = &self.diversification_nonce {
            diversification_nonce.write(out);
        }
        self.partial_packet_number.write(out);
        proof {
            assert(out@ =~= start + spec_write_public_header(self@));
        }
    }
}

/// Which flags a flags byte made of the separate flag bits has.
proof fn lemma_public_flags(version: u8, reset: u8, nonce: u8, connection_id: u8, length: u8)
    requires
        version == 0 || version == 0x01,
        reset == 0 || reset == 0x02,
        nonce == 0 || nonce == 0x04,
        connection_id == 0 || connection_id == 0x08,
        length == 0 || length == 0x10 || length == 0x20 || length == 0x30,
    ensures
        ((version | reset | nonce | connection_id | length) & 0x01 != 0) == (version == 0x01),
        ((version | reset | nonce | connection_id | length) & 0x04 != 0) == (nonce == 0x04),
        ((version | reset | nonce | connection_id | length) & 0x08 != 0) == (connection_id == 0x08),
        ((version | reset | nonce | connection_id | length) & 0x30 != 0) == (length != 0),
        ((version | reset | nonce | connection_id | length) & 0x20 != 0) == (length == 0x20 || length == 0x30),
        ((version | reset | nonce | connection_id | length) & 0x10 != 0) == (length == 0x10 || length == 0x30),
{
    assert(((version | reset | nonce | connection_id | length) & 0x01 != 0) == (version == 0x01)) by (bit_vector)
        requires
            version == 0 || version == 0x01,
            reset == 0 || reset == 0x02,
            nonce == 0 || nonce == 0x04,
            connection_id == 0 || connection_id == 0x08,
            length == 0 || length == 0x10 || length == 0x20 || length == 0x30,
    ;
    assert(((version | reset | nonce | connection_id | length) & 0x04 != 0) == (nonce == 0x04)) by (bit_vector)
        requires
            version == 0 || version == 0x01,
            reset == 0 || reset == 0x02,
            nonce == 0 || nonce == 0x04,
            connection_id == 0 || connection_id == 0x08,
            length == 0 || length == 0x10 || length == 0x20 || length == 0x30,
    ;
    assert(((version | reset | nonce | connection_id | length) & 0x08 != 0) == (connection_id == 0x08)) by (bit_vector)
        requires
            version == 0 || version == 0x01,
            reset == 0 || reset == 0x02,
            nonce == 0 || nonce == 0x04,
            connection_id == 0 || connection_id == 0x08,
            length == 0 || length == 0x10 || length == 0x20 || length == 0x30,
    ;
    assert(((version | reset | nonce | connection_id | length) & 0x30 != 0) == (length != 0)) by (bit_vector)
        requires
            version == 0 || version == 0x01,
            reset == 0 || reset == 0x02,
            nonce == 0 || nonce == 0x04,
            connection_id == 0 || connection_id == 0x08,
            length == 0 || length == 0x10 || length == 0x20 || length == 0x30,
    ;
    assert(((version | reset | nonce | connection_id | length) & 0x20 != 0) == (length == 0x20 || length == 0x30)) by (bit_vector)
        requires
            version == 0 || version == 0x01,
            reset == 0 || reset == 0x02,
            nonce == 0 || nonce == 0x04,
            connection_id == 0 || connection_id == 0x08,
            length == 0 || length == 0x10 || length == 0x20 || length == 0x30,
    ;
    assert(((version | reset | nonce | connection_id | length) & 0x10 != 0) == (length == 0x10 || length == 0x30)) by (bit_vector)
        requires
            version == 0 || version == 0x01,
            reset == 0 || reset == 0x02,
            nonce == 0 || nonce == 0x04,
            connection_id == 0 || connection_id == 0x08,
            length == 0 || length == 0x10 || length == 0x20 || length == 0x30,
    ;
}

/// Writing a public header and reading the bytes back gives the header again and reads all the
/// bytes written. Left out are the headers the reading cannot give back: the reset flag is read
/// from the version flag bit, so it must be set exactly when there is a version, and either
/// length bit reads as six bytes, so the partial packet number must have one byte or six.
#[verifier::rlimit(80)]
pub proof fn lemma_public_header_round_trip(header: PublicHeaderView)
    requires
        header.connection_id matches Some(id) ==> id.len() == 18,
        header.diversification_nonce matches Some(nonce) ==> nonce.len() == 32,
        header.partial_packet_number.1 < pow256(spec_length_bytes(header.partial_packet_number.0)),
        header.reset_flag == header.version is Some,
        header.partial_packet_number.0 == PacketNumberLength::OneByte
            || header.partial_packet_number.0 == PacketNumberLength::SixBytes,
    ensures
        spec_read_public_header(spec_write_public_header(header))
            == Ok::<(PublicHeaderView, nat), Error>((header, spec_write_public_header(header).len())),
{
    lemma_pow256_values();
    let flags = spec_public_flags(header);
    lemma_public_flags(
        if header.version is Some { PUBLIC_FLAG_VERSION } else { 0u8 },
        if header.reset_flag { PUBLIC_FLAG_RESET } else { 0u8 },
        if header.diversification_nonce is Some { HAS_DIVERSIFICATION_NONCE } else { 0u8 },
        if header.connection_id is Some { HAS_CONNECTION_ID } else { 0u8 },
        spec_length_flags(header.partial_packet_number.0),
    );
    let ids = match header.connection_id {
        Some(id) => id,
        None => Seq::<u8>::empty(),
    };
    let versions = match header.version {
        Some(v) => Version::spec_write(v)->Ok_0,
        None => Seq::<u8>::empty(),
    };
    let nonces = match header.diversification_nonce {
        Some(nonce) => nonce,
        None => Seq::<u8>::empty(),
    };
    let n = spec_length_bytes(header.partial_packet_number.0);
    let partial = spec_write_legacy_partial(header.partial_packet_number);
    lemma_be_bytes_value(header.partial_packet_number.1 as nat, n);
    let bytes = seq![flags] + ids + versions + nonces + partial;
    assert(bytes == spec_write_public_header(header));
    let len = bytes.len() as int;
    assert(bytes.subrange(1, len) =~= ids + (versions + nonces + partial));
    if let Some(id) = header.connection_id {
        assert((id + (versions + nonces + partial)).take(18) =~= id);
        assert(Seq::new(0, |i: int| 0u8) + id.take(18) =~= id);
    }
    let p1 = 1 + ids.len();
    assert(bytes.subrange(p1 as int, len) =~= versions + (nonces + partial));
    if let Some(v) = header.version {
        lemma_version_round_trip(v, nonces + partial);
    }
    let p2 = p1 + versions.len();
    assert(bytes.subrange(p2 as int, len) =~= nonces + partial);
    if let Some(nonce) = header.diversification_nonce {
        assert((nonce + partial).take(32) =~= nonce);
    }
    let p3 = p2 + nonces.len();
    assert(bytes.subrange(p3 as int, len) =~= partial);
    assert(partial.take(n as int) =~= partial);
    assert(spec_length_of_flags(flags) == header.partial_packet_number.0);
    assert(spec_read_legacy_partial(partial, header.partial_packet_number.0)
        == Ok::<((PacketNumberLength, u64), nat), Error>((header.partial_packet_number, n)));
    assert(bytes[0] == flags);
}

} // verus!
