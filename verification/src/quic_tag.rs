use vstd::prelude::*;
use crate::errors::Error;
use crate::primitives::byte_order_primitives::{
    le_bytes, le_value, be_value, le_read_uint, lemma_le_value_bytes, lemma_le_value_bound,
    lemma_pow256_values,
};
use crate::protocol::readable::Readable;
use crate::protocol::writable::Writable;
use std::cmp::Ordering;
use vstd::std_specs::cmp::PartialOrdSpecImpl;

verus! {

/// A tag of the crypto handshake: four bytes, most of which spell out their meaning.
#[derive(Debug, Clone, Copy, Eq, PartialEq, Ord, Hash)]
pub enum QuicTag {
    ClientHello,
    ServerHello,
    ServerNameIndication,
    SourceAddressToken,
    ProofDemand,
    CommonCertificateSets,
    CachedCertificates,
    Version,
    Fnv1aHash,
    Rejection,
    ServerConfiguration,
    ServerNonce,
    ServerConfigurationTimeToLive,
    CertificateChain,
    ProofOfAuthenticity,
    ServerConfigurationId,
    KeyExchangeAlgorithm,
    Curve25519,
    P256,
    AuthenticatedEncryptionAlgorithm,
    AesGcm,
    Salsa20Poly1305,
    PublicValue,
    Orbit,
    ServerConfigurationExpiry,
    ClientNonce,
    ClientEncryptedTagValues,
    ChannelIdKey,
    ChannelIdSignature,
    X509,
    Custom([u8; 4]),
}

/// The four bytes a tag stands for.
pub open spec fn spec_tag_bytes(tag: QuicTag) -> Seq<u8> {
    match tag {
        QuicTag::ClientHello => seq![0x43, 0x48, 0x4c, 0x4f],
        QuicTag::ServerHello => seq![0x53, 0x48, 0x4c, 0x4f],
        QuicTag::ServerNameIndication => seq![0x53, 0x4e, 0x49, 0x00],
        QuicTag::SourceAddressToken => seq![0x53, 0x54, 0x4b, 0x00],
        QuicTag::ProofDemand => seq![0x50, 0x44, 0x4d, 0x44],
        QuicTag::CommonCertificateSets => seq![0x43, 0x43, 0x53, 0x00],
        QuicTag::CachedCertificates => seq![0x43, 0x43, 0x52, 0x54],
        QuicTag::Version => seq![0x56, 0x45, 0x52, 0x00],
        QuicTag::Fnv1aHash => seq![0x58, 0x4c, 0x43, 0x54],
        QuicTag::Rejection => seq![0x52, 0x45, 0x4a, 0x00],
        QuicTag::ServerConfiguration => seq![0x53, 0x43, 0x46, 0x47],
        QuicTag::ServerNonce => seq![0x53, 0x4e, 0x4f, 0x00],
        QuicTag::ServerConfigurationTimeToLive => seq![0x53, 0x54, 0x54, 0x4c],
        QuicTag::CertificateChain => seq![0x66, 0x66, 0x35, 0x34],
        QuicTag::ProofOfAuthenticity => seq![0x50, 0x52, 0x4f, 0x46],
        QuicTag::ServerConfigurationId => seq![0x53, 0x43, 0x49, 0x44],
        QuicTag::KeyExchangeAlgorithm => seq![0x4b, 0x45, 0x58, 0x53],
        QuicTag::Curve25519 => seq![0x43, 0x32, 0x35, 0x35],
        QuicTag::P256 => seq![0x50, 0x32, 0x35, 0x36],
        QuicTag::AuthenticatedEncryptionAlgorithm => seq![0x41, 0x45, 0x41, 0x44],
        QuicTag::AesGcm => seq![0x41, 0x45, 0x53, 0x47],
        QuicTag::Salsa20Poly1305 => seq![0x53, 0x32, 0x30, 0x50],
        QuicTag::PublicValue => seq![0x50, 0x55, 0x42, 0x53],
        QuicTag::Orbit => seq![0x4f, 0x52, 0x42, 0x54],
        QuicTag::ServerConfigurationExpiry => seq![0x45, 0x58, 0x50, 0x59],
        QuicTag::ClientNonce => seq![0x4e, 0x4f, 0x4e, 0x43],
        QuicTag::ClientEncryptedTagValues => seq![0x43, 0x45, 0x54, 0x56],
        QuicTag::ChannelIdKey => seq![0x43, 0x49, 0x44, 0x4b],
        QuicTag::ChannelIdSignature => seq![0x43, 0x49, 0x44, 0x53],
        QuicTag::X509 => seq![0x58, 0x35, 0x30, 0x39],
        QuicTag::Custom(bytes) => bytes@,
    }
}

/// The position of a tag's variant in the enumeration.
pub open spec fn spec_tag_index(tag: QuicTag) -> nat {
    match tag {
        QuicTag::ClientHello => 0,
        QuicTag::ServerHello => 1,
        QuicTag::ServerNameIndication => 2,
        QuicTag::SourceAddressToken => 3,
        QuicTag::ProofDemand => 4,
        QuicTag::CommonCertificateSets => 5,
        QuicTag::CachedCertificates => 6,
        QuicTag::Version => 7,
        QuicTag::Fnv1aHash => 8,
        QuicTag::Rejection => 9,
        QuicTag::ServerConfiguration => 10,
        QuicTag::ServerNonce => 11,
        QuicTag::ServerConfigurationTimeToLive => 12,
        QuicTag::CertificateChain => 13,
        QuicTag::ProofOfAuthenticity => 14,
        QuicTag::ServerConfigurationId => 15,
        QuicTag::KeyExchangeAlgorithm => 16,
        QuicTag::Curve25519 => 17,
        QuicTag::P256 => 18,
        QuicTag::AuthenticatedEncryptionAlgorithm => 19,
        QuicTag::AesGcm => 20,
        QuicTag::Salsa20Poly1305 => 21,
        QuicTag::PublicValue => 22,
        QuicTag::Orbit => 23,
        QuicTag::ServerConfigurationExpiry => 24,
        QuicTag::ClientNonce => 25,
        QuicTag::ClientEncryptedTagValues => 26,
        QuicTag::ChannelIdKey => 27,
        QuicTag::ChannelIdSignature => 28,
        QuicTag::X509 => 29,
        QuicTag::Custom(_) => 30,
    }
}

/// The number a tag is sent as: its four bytes, least significant first.
pub open spec fn spec_tag_code(tag: QuicTag) -> u32 {
    match tag {
        QuicTag::ClientHello => 0x4f4c4843,
        QuicTag::ServerHello => 0x4f4c4853,
        QuicTag::ServerNameIndication => 0x00494e53,
        QuicTag::SourceAddressToken => 0x004b5453,
        QuicTag::ProofDemand => 0x444d4450,
        QuicTag::CommonCertificateSets => 0x00534343,
        QuicTag::CachedCertificates => 0x54524343,
        QuicTag::Version => 0x00524556,
        QuicTag::Fnv1aHash => 0x54434c58,
        QuicTag::Rejection => 0x004a4552,
        QuicTag::ServerConfiguration => 0x47464353,
        QuicTag::ServerNonce => 0x004f4e53,
        QuicTag::ServerConfigurationTimeToLive => 0x4c545453,
        QuicTag::CertificateChain => 0x34356666,
        QuicTag::ProofOfAuthenticity => 0x464f5250,
        QuicTag::ServerConfigurationId => 0x44494353,
        QuicTag::KeyExchangeAlgorithm => 0x5358454b,
        QuicTag::Curve25519 => 0x35353243,
        QuicTag::P256 => 0x36353250,
        QuicTag::AuthenticatedEncryptionAlgorithm => 0x44414541,
        QuicTag::AesGcm => 0x47534541,
        QuicTag::Salsa20Poly1305 => 0x50303253,
        QuicTag::PublicValue => 0x53425550,
        QuicTag::Orbit => 0x5442524f,
        QuicTag::ServerConfigurationExpiry => 0x59505845,
        QuicTag::ClientNonce => 0x434e4f4e,
        QuicTag::ClientEncryptedTagValues => 0x56544543,
        QuicTag::ChannelIdKey => 0x4b444943,
        QuicTag::ChannelIdSignature => 0x53444943,
        QuicTag::X509 => 0x39303558,
        QuicTag::Custom(bytes) => le_value(bytes@) as u32,
    }
}

/// A tag's number is its four bytes read least significant first.
pub proof fn lemma_tag_code_is_le_value(tag: QuicTag)
    ensures
        spec_tag_code(tag) as nat == le_value(spec_tag_bytes(tag)),
        spec_tag_bytes(tag).len() == 4,
{
    lemma_pow256_values();
    reveal_with_fuel(le_value, 5);
    if let QuicTag::Custom(bytes) = tag {
        lemma_le_value_bound(bytes@);
    }
}

/// Whether a number is the code of one of the named tags.
pub open spec fn spec_is_named_code(code: u32) -> bool {
    exists|tag: QuicTag| !(tag is Custom) && #[trigger] spec_tag_code(tag) == code
}

/// The order in which tags are kept: by variant, and custom tags by their bytes read most
/// significant first (the order that `derive(Ord)` gives).
pub open spec fn spec_tag_key(tag: QuicTag) -> nat {
    spec_tag_index(tag) * 0x1_0000_0000 + match tag {
        QuicTag::Custom(bytes) => be_value(bytes@),
        _ => 0,
    }
}

impl View for QuicTag {
    type V = QuicTag;

    open spec fn view(&self) -> QuicTag {
        *self
    }
}

impl QuicTag {
    /// The number the tag is sent as: its four bytes, least significant first.
    pub fn code(self) -> (r: u32)
        ensures
            r == spec_tag_code(self),
    {
        match self {
            QuicTag::ClientHello => 0x4f4c4843,
            QuicTag::ServerHello => 0x4f4c4853,
            QuicTag::ServerNameIndication => 0x00494e53,
            QuicTag::SourceAddressToken => 0x004b5453,
            QuicTag::ProofDemand => 0x444d4450,
            QuicTag::CommonCertificateSets => 0x00534343,
            QuicTag::CachedCertificates => 0x54524343,
            QuicTag::Version => 0x00524556,
            QuicTag::Fnv1aHash => 0x54434c58,
            QuicTag::Rejection => 0x004a4552,
            QuicTag::ServerConfiguration => 0x47464353,
            QuicTag::ServerNonce => 0x004f4e53,
            QuicTag::ServerConfigurationTimeToLive => 0x4c545453,
            QuicTag::CertificateChain => 0x34356666,
            QuicTag::ProofOfAuthenticity => 0x464f5250,
            QuicTag::ServerConfigurationId => 0x44494353,
            QuicTag::KeyExchangeAlgorithm => 0x5358454b,
            QuicTag::Curve25519 => 0x35353243,
            QuicTag::P256 => 0x36353250,
            QuicTag::AuthenticatedEncryptionAlgorithm => 0x44414541,
            QuicTag::AesGcm => 0x47534541,
            QuicTag::Salsa20Poly1305 => 0x50303253,
            QuicTag::PublicValue => 0x53425550,
            QuicTag::Orbit => 0x5442524f,
            QuicTag::ServerConfigurationExpiry => 0x59505845,
            QuicTag::ClientNonce => 0x434e4f4e,
            QuicTag::ClientEncryptedTagValues => 0x56544543,
            QuicTag::ChannelIdKey => 0x4b444943,
            QuicTag::ChannelIdSignature => 0x53444943,
            QuicTag::X509 => 0x39303558,
            QuicTag::Custom(bytes) => {
                proof {
                    lemma_le_value_bound(bytes@);
                    assert(bytes@.take(4) =~= bytes@);
                }
                le_read_uint(bytes.as_slice(), 4) as u32
            },
        }
    }

    /// The four bytes of the tag.
    pub fn to_bytes(self) -> (r: [u8; 4])
        ensures
            r@ == spec_tag_bytes(self),
    {
        let bytes: [u8; 4] = match self {
            QuicTag::ClientHello => [0x43, 0x48, 0x4c, 0x4f],
            QuicTag::ServerHello => [0x53, 0x48, 0x4c, 0x4f],
            QuicTag::ServerNameIndication => [0x53, 0x4e, 0x49, 0x00],
            QuicTag::SourceAddressToken => [0x53, 0x54, 0x4b, 0x00],
            QuicTag::ProofDemand => [0x50, 0x44, 0x4d, 0x44],
            QuicTag::CommonCertificateSets => [0x43, 0x43, 0x53, 0x00],
            QuicTag::CachedCertificates => [0x43, 0x43, 0x52, 0x54],
            QuicTag::Version => [0x56, 0x45, 0x52, 0x00],
            QuicTag::Fnv1aHash => [0x58, 0x4c, 0x43, 0x54],
            QuicTag::Rejection => [0x52, 0x45, 0x4a, 0x00],
            QuicTag::ServerConfiguration => [0x53, 0x43, 0x46, 0x47],
            QuicTag::ServerNonce => [0x53, 0x4e, 0x4f, 0x00],
            QuicTag::ServerConfigurationTimeToLive => [0x53, 0x54, 0x54, 0x4c],
            QuicTag::CertificateChain => [0x66, 0x66, 0x35, 0x34],
            QuicTag::ProofOfAuthenticity => [0x50, 0x52, 0x4f, 0x46],
            QuicTag::ServerConfigurationId => [0x53, 0x43, 0x49, 0x44],
            QuicTag::KeyExchangeAlgorithm => [0x4b, 0x45, 0x58, 0x53],
            QuicTag::Curve25519 => [0x43, 0x32, 0x35, 0x35],
            QuicTag::P256 => [0x50, 0x32, 0x35, 0x36],
            QuicTag::AuthenticatedEncryptionAlgorithm => [0x41, 0x45, 0x41, 0x44],
            QuicTag::AesGcm => [0x41, 0x45, 0x53, 0x47],
            QuicTag::Salsa20Poly1305 => [0x53, 0x32, 0x30, 0x50],
            QuicTag::PublicValue => [0x50, 0x55, 0x42, 0x53],
            QuicTag::Orbit => [0x4f, 0x52, 0x42, 0x54],
            QuicTag::ServerConfigurationExpiry => [0x45, 0x58, 0x50, 0x59],
            QuicTag::ClientNonce => [0x4e, 0x4f, 0x4e, 0x43],
            QuicTag::ClientEncryptedTagValues => [0x43, 0x45, 0x54, 0x56],
            QuicTag::ChannelIdKey => [0x43, 0x49, 0x44, 0x4b],
            QuicTag::ChannelIdSignature => [0x43, 0x49, 0x44, 0x53],
            QuicTag::X509 => [0x58, 0x35, 0x30, 0x39],
            QuicTag::Custom(bytes) => bytes,
        };
        proof {
            assert(bytes@ =~= spec_tag_bytes(self));
        }
        bytes
    }

    /// The tag that four bytes stand for: the named tag with those bytes, or else a custom tag.
    pub fn from_bytes(bytes: [u8; 4]) -> (r: QuicTag)
        ensures
            spec_tag_bytes(r) == bytes@,
            r is Custom <==> !spec_is_named_code(le_value(bytes@) as u32),
    {
        proof {
            lemma_pow256_values();
            lemma_le_value_bound(bytes@);
            assert(bytes@.take(4) =~= bytes@);
        }
        let code = le_read_uint(bytes.as_slice(), 4) as u32;
        let tag = match code {
            0x4f4c4843 => QuicTag::ClientHello,
            0x4f4c4853 => QuicTag::ServerHello,
            0x00494e53 => QuicTag::ServerNameIndication,
            0x004b5453 => QuicTag::SourceAddressToken,
            0x444d4450 => QuicTag::ProofDemand,
            0x00534343 => QuicTag::CommonCertificateSets,
            0x54524343 => QuicTag::CachedCertificates,
            0x00524556 => QuicTag::Version,
            0x54434c58 => QuicTag::Fnv1aHash,
            0x004a4552 => QuicTag::Rejection,
            0x47464353 => QuicTag::ServerConfiguration,
            0x004f4e53 => QuicTag::ServerNonce,
            0x4c545453 => QuicTag::ServerConfigurationTimeToLive,
            0x34356666 => QuicTag::CertificateChain,
            0x464f5250 => QuicTag::ProofOfAuthenticity,
            0x44494353 => QuicTag::ServerConfigurationId,
            0x5358454b => QuicTag::KeyExchangeAlgorithm,
            0x35353243 => QuicTag::Curve25519,
            0x36353250 => QuicTag::P256,
            0x44414541 => QuicTag::AuthenticatedEncryptionAlgorithm,
            0x47534541 => QuicTag::AesGcm,
            0x50303253 => QuicTag::Salsa20Poly1305,
            0x53425550 => QuicTag::PublicValue,
            0x5442524f => QuicTag::Orbit,
            0x59505845 => QuicTag::ServerConfigurationExpiry,
            0x434e4f4e => QuicTag::ClientNonce,
            0x56544543 => QuicTag::ClientEncryptedTagValues,
            0x4b444943 => QuicTag::ChannelIdKey,
            0x53444943 => QuicTag::ChannelIdSignature,
            0x39303558 => QuicTag::X509,
            _ => QuicTag::Custom(bytes),
        };
        proof {
            lemma_tag_code_is_le_value(tag);
            if !(tag is Custom) {
                lemma_le_value_injective(spec_tag_bytes(tag), bytes@);
            } else if spec_is_named_code(code) {
                let named = choose|t: QuicTag| !(t is Custom) && #[trigger] spec_tag_code(t) == code;
                assert(spec_tag_code(named) == code);
            }
        }
        tag
    }
}

/// Four bytes with the same value read least significant first are the same bytes.
proof fn lemma_le_value_injective(a: Seq<u8>, b: Seq<u8>)
    requires
        a.len() == 4,
        b.len() == 4,
        le_value(a) == le_value(b),
    ensures
        a == b,
{
    lemma_le_value_bytes(a);
    lemma_le_value_bytes(b);
}

impl From<QuicTag> for u32 {
    fn from(value: QuicTag) -> (r: u32) {
        value.code()
    }
}

impl vstd::std_specs::convert::FromSpecImpl<QuicTag> for u32 {
    open spec fn obeys_from_spec() -> bool {
        true
    }

    open spec fn from_spec(v: QuicTag) -> u32 {
        spec_tag_code(v)
    }
}

/// What reading a tag from the front of `bytes` gives: the tag its first four bytes stand for.
pub open spec fn spec_read_tag(bytes: Seq<u8>) -> Result<(QuicTag, nat), Error> {
    if bytes.len() < 4 {
        Err(Error::FailedToReadBytes)
    } else {
        Ok((spec_tag_of_bytes(bytes.take(4)), 4))
    }
}

/// The tag four bytes stand for.
pub open spec fn spec_tag_of_bytes(bytes: Seq<u8>) -> QuicTag {
    choose|tag: QuicTag| spec_tag_bytes(tag) == bytes && (tag is Custom <==> !spec_is_named_code(le_value(bytes) as u32))
}

impl QuicTag {
    /// Reads a tag from the front of `bytes`.
    pub fn read(bytes: &[u8]) -> (r: Result<(QuicTag, usize), Error>)
        ensures
            bytes@.len() < 4 ==> r == Err::<(QuicTag, usize), Error>(Error::FailedToReadBytes),
            bytes@.len() >= 4 ==> (r matches Ok((tag, n)) && n == 4 && spec_tag_bytes(tag) == bytes@.take(4)
                && (tag is Custom <==> !spec_is_named_code(le_value(bytes@.take(4)) as u32))),
    {
        if bytes.len() < 4 {
            return Err(Error::FailedToReadBytes);
        }
        let array: [u8; 4] = [bytes[0], bytes[1], bytes[2], bytes[3]];
        proof {
            assert(array@ =~= bytes@.take(4));
        }
        Ok((QuicTag::from_bytes(array), 4))
    }

    /// Appends the tag's four bytes.
    pub fn write(&self, out: &mut Vec<u8>)
        ensures
            final(out)@ == old(out)@ + spec_tag_bytes(*self),
    {
        let bytes = self.to_bytes();
        out.extend_from_slice(bytes.as_slice());
    }
}

/// A tag takes up four bytes: the named tag with them, or else a custom tag holding them.
impl Readable for QuicTag {
    open spec fn spec_read(bytes: Seq<u8>) -> Result<(QuicTag, nat), Error> {
        if bytes.len() >= 4 {
            Ok((spec_tag_of_bytes(bytes.take(4)), 4))
        } else {
            Err(Error::FailedToReadBytes)
        }
    }

    proof fn lemma_read_bounds(bytes: Seq<u8>) {
    }

    fn read(bytes: &[u8]) -> (res: Result<(QuicTag, usize), Error>) {
        let r = QuicTag::read(bytes);
        proof {
            if let Ok((tag, n)) = r {
                lemma_tag_code_is_le_value(tag);
                lemma_tag_round_trip(tag);
            }
        }
        r
    }
}

/// A tag is written as its four bytes.
impl Writable for QuicTag {
    open spec fn spec_write(value: QuicTag) -> Result<Seq<u8>, Error> {
        Ok(spec_tag_bytes(value))
    }

    open spec fn write_requires(value: QuicTag) -> bool {
        true
    }

    fn write(&self, out: &mut Vec<u8>) -> (res: Result<(), Error>) {
        QuicTag::write(self, out);
        Ok(())
    }
}

/// Tags are compared by the numbers they are sent as.
impl PartialOrd for QuicTag {
    fn partial_cmp(&self, other: &QuicTag) -> (r: Option<Ordering>) {
        let a = self.code();
        let b = other.code();
        if a < b {
            Some(Ordering::Less)
        } else if a == b {
            Some(Ordering::Equal)
        } else {
            Some(Ordering::Greater)
        }
    }
}

impl PartialOrdSpecImpl for QuicTag {
    open spec fn obeys_partial_cmp_spec() -> bool {
        true
    }

    open spec fn partial_cmp_spec(&self, other: &QuicTag) -> Option<Ordering> {
        if spec_tag_code(*self) < spec_tag_code(*other) {
            Some(Ordering::Less)
        } else if spec_tag_code(*self) == spec_tag_code(*other) {
            Some(Ordering::Equal)
        } else {
            Some(Ordering::Greater)
        }
    }
}

/// A tag's bytes read back give the tag again, unless it is a custom tag holding the bytes of a
/// named one (which reads back as the named tag).
pub proof fn lemma_tag_round_trip(tag: QuicTag)
    requires
        tag is Custom ==> !spec_is_named_code(spec_tag_code(tag)),
    ensures
        spec_tag_of_bytes(spec_tag_bytes(tag)) == tag,
{
    lemma_tag_code_is_le_value(tag);
    let bytes = spec_tag_bytes(tag);
    assert(tag is Custom <==> !spec_is_named_code(le_value(bytes) as u32)) by {
        if !(tag is Custom) {
            assert(spec_tag_code(tag) == le_value(bytes) as u32);
        }
    }
    let other = spec_tag_of_bytes(bytes);
    assert(spec_tag_bytes(other) == bytes && (other is Custom <==> !spec_is_named_code(le_value(bytes) as u32)));
    lemma_tag_code_is_le_value(other);
    if let QuicTag::Custom(a) = tag {
        if let QuicTag::Custom(b) = other {
            assert(a@ =~= b@);
            assert(a == b);
        }
    }
}

/// Each named tag is sent as the four ASCII characters of its name in the protocol (padded with
/// zero bytes): "CHLO" for the client hello, "C255" for Curve25519, "P256" for P-256 and so on; a
/// custom tag as its own bytes. The tag's number is those bytes read least significant first, and
/// reading those bytes, whatever follows, gives the named tag back.
pub proof fn lemma_tag_names(tag: QuicTag, rest: Seq<u8>)
    ensures
        ({
            let name = match tag {
            QuicTag::ClientHello => seq![0x43, 0x48, 0x4c, 0x4f], // "CHLO"
            QuicTag::ServerHello => seq![0x53, 0x48, 0x4c, 0x4f], // "SHLO"
            QuicTag::ServerNameIndication => seq![0x53, 0x4e, 0x49, 0x00], // "SNI\0"
            QuicTag::SourceAddressToken => seq![0x53, 0x54, 0x4b, 0x00], // "STK\0"
            QuicTag::ProofDemand => seq![0x50, 0x44, 0x4d, 0x44], // "PDMD"
            QuicTag::CommonCertificateSets => seq![0x43, 0x43, 0x53, 0x00], // "CCS\0"
            QuicTag::CachedCertificates => seq![0x43, 0x43, 0x52, 0x54], // "CCRT"
            QuicTag::Version => seq![0x56, 0x45, 0x52, 0x00], // "VER\0"
            QuicTag::Fnv1aHash => seq![0x58, 0x4c, 0x43, 0x54], // "XLCT"
            QuicTag::Rejection => seq![0x52, 0x45, 0x4a, 0x00], // "REJ\0"
            QuicTag::ServerConfiguration => seq![0x53, 0x43, 0x46, 0x47], // "SCFG"
            QuicTag::ServerNonce => seq![0x53, 0x4e, 0x4f, 0x00], // "SNO\0"
            QuicTag::ServerConfigurationTimeToLive => seq![0x53, 0x54, 0x54, 0x4c], // "STTL"
            QuicTag::CertificateChain => seq![0x66, 0x66, 0x35, 0x34], // "ff54"
            QuicTag::ProofOfAuthenticity => seq![0x50, 0x52, 0x4f, 0x46], // "PROF"
            QuicTag::ServerConfigurationId => seq![0x53, 0x43, 0x49, 0x44], // "SCID"
            QuicTag::KeyExchangeAlgorithm => seq![0x4b, 0x45, 0x58, 0x53], // "KEXS"
            QuicTag::Curve25519 => seq![0x43, 0x32, 0x35, 0x35], // "C255"
            QuicTag::P256 => seq![0x50, 0x32, 0x35, 0x36], // "P256"
            QuicTag::AuthenticatedEncryptionAlgorithm => seq![0x41, 0x45, 0x41, 0x44], // "AEAD"
            QuicTag::AesGcm => seq![0x41, 0x45, 0x53, 0x47], // "AESG"
            QuicTag::Salsa20Poly1305 => seq![0x53, 0x32, 0x30, 0x50], // "S20P"
            QuicTag::PublicValue => seq![0x50, 0x55, 0x42, 0x53], // "PUBS"
            QuicTag::Orbit => seq![0x4f, 0x52, 0x42, 0x54], // "ORBT"
            QuicTag::ServerConfigurationExpiry => seq![0x45, 0x58, 0x50, 0x59], // "EXPY"
            QuicTag::ClientNonce => seq![0x4e, 0x4f, 0x4e, 0x43], // "NONC"
            QuicTag::ClientEncryptedTagValues => seq![0x43, 0x45, 0x54, 0x56], // "CETV"
            QuicTag::ChannelIdKey => seq![0x43, 0x49, 0x44, 0x4b], // "CIDK"
            QuicTag::ChannelIdSignature => seq![0x43, 0x49, 0x44, 0x53], // "CIDS"
            QuicTag::X509 => seq![0x58, 0x35, 0x30, 0x39], // "X509"
            QuicTag::Custom(bytes) => bytes@,
            };
            &&& <QuicTag as Writable>::spec_write(tag) == Ok::<Seq<u8>, Error>(name)
            &&& spec_tag_code(tag) as nat == le_value(name)
            &&& !(tag is Custom) ==> <QuicTag as Readable>::spec_read(name + rest) == Ok::<(QuicTag, nat), Error>((tag, 4))
        }),
{
    lemma_tag_code_is_le_value(tag);
    if !(tag is Custom) {
        lemma_tag_round_trip(tag);
        assert((spec_tag_bytes(tag) + rest).take(4) =~= spec_tag_bytes(tag));
    }
}

} // verus!
