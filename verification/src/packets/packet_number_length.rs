use vstd::prelude::*;
use vstd::arithmetic::power2::{pow2, lemma2_to64, lemma2_to64_rest};
use crate::packets::packet_number::PacketNumber;

verus! {

/// The number of bytes a packet number takes up in the older packet layout.
#[derive(Debug, Clone, Copy, Eq, PartialEq, Ord, PartialOrd, Hash)]
pub enum PacketNumberLength {
    OneByte,
    TwoBytes,
    FourBytes,
    SixBytes,
}

/// The length in bytes.
pub open spec fn spec_length_bytes(length: PacketNumberLength) -> nat {
    match length {
        PacketNumberLength::OneByte => 1,
        PacketNumberLength::TwoBytes => 2,
        PacketNumberLength::FourBytes => 4,
        PacketNumberLength::SixBytes => 6,
    }
}

impl PacketNumberLength {
    /// Gets the length of the packet number in bytes.
    pub fn len(self) -> (r: u8)
        ensures
            r == spec_length_bytes(self),
    {
        match self {
            PacketNumberLength::OneByte => 1,
            PacketNumberLength::TwoBytes => 2,
            PacketNumberLength::FourBytes => 4,
            PacketNumberLength::SixBytes => 6,
        }
    }

    /// The length in bits.
    pub fn bit_len(self) -> (r: u8)
        ensures
            r == 8 * spec_length_bytes(self),
    {
        self.len() * 8
    }

    /// The largest packet number that fits in this many bytes: 2^(8 * length) - 1.
    pub fn max_packet_number(self) -> (r: PacketNumber)
        ensures
            r@ == pow2(8 * spec_length_bytes(self)) - 1,
    {
        proof {
            lemma2_to64();
            lemma2_to64_rest();
        }
        let maximum_packet_number: u64 = match self {
            PacketNumberLength::OneByte => 0xff,
            PacketNumberLength::TwoBytes => 0xffff,
            PacketNumberLength::FourBytes => 0xffff_ffff,
            PacketNumberLength::SixBytes => 0xffff_ffff_ffff,
        };
        match PacketNumber::try_from(maximum_packet_number) {
            Ok(packet_number) => packet_number,
            Err(_) => PacketNumber::max_value(),
        }
    }

    /// The largest distance a packet number of this length is sent across: 2^(8 * length - 2).
    pub fn max_transmittable(self) -> (r: PacketNumber)
        ensures
            r@ == pow2((8 * spec_length_bytes(self) - 2) as nat),
    {
        proof {
            lemma2_to64();
            lemma2_to64_rest();
        }
        let bit_len = self.bit_len();
        let value: u64 = 1u64 << ((bit_len - 2) as u64);
        proof {
            vstd::bits::lemma_u64_shl_is_mul(1, (bit_len - 2) as u64);
            vstd::bits::lemma_u64_pow2_no_overflow((bit_len - 2) as nat);
        }
        match PacketNumber::try_from(value) {
            Ok(packet_number) => packet_number,
            Err(_) => PacketNumber::max_value(),
        }
    }
}

} // verus!
