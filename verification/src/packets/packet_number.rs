use vstd::prelude::*;
use vstd::arithmetic::power2::{pow2, lemma2_to64, lemma2_to64_rest, lemma_pow2_pos};
use vstd::bits::lemma_u64_shl_is_mul;
use vstd::std_specs::convert::FromSpecImpl;
use crate::errors::Error;
use crate::primitives::abs_delta::AbsDelta;
use crate::primitives::byte_order_primitives::{
    be_bytes, be_value, lemma_pow256_values, lemma_be_tagged, lemma_be_value_append, lemma_be_value_single,
    lemma_be_value_bound, lemma_be_bytes_value, pow256,
};
use crate::packets::epochs::{Epochs, epoch_values, epochs_new, epochs_push, epochs_len, epochs_get};
use crate::protocol::readable::Readable;
use crate::protocol::writable::Writable;
use crate::random::thread_random_u32_in_range;

verus! {

/// The largest packet number: 2^62 - 1.
pub const MAX_PACKET_NUMBER: u64 = 4611686018427387903;

/// The largest partial packet number: 2^30 - 1.
pub const MAX_PARTIAL_PACKET_NUMBER: u32 = 0x3FFFFFFF;

/// A packet number: an integer from 0 to 2^62 - 1.
#[derive(Debug, Copy, Clone, Eq, PartialEq, Ord, PartialOrd, Hash)]
pub struct PacketNumber(u64);

impl View for PacketNumber {
    type V = u64;

    closed spec fn view(&self) -> u64 {
        self.0
    }
}

/// The number of bytes a partial packet number takes up on the wire.
#[derive(Debug, Clone, Copy, Eq, PartialEq, Ord, PartialOrd, Hash)]
pub enum PartialPacketNumberLength {
    OneByte,
    TwoBytes,
    FourBytes,
}

/// This represents a partial packet number consisting of only the lower bytes.
#[derive(Debug, Clone, Copy, Eq, PartialEq, Ord, PartialOrd, Hash)]
pub struct PartialPacketNumber(u32);

impl View for PartialPacketNumber {
    type V = u32;

    closed spec fn view(&self) -> u32 {
        self.0
    }
}

/// The number of bits of the packet number a partial packet number of this length holds.
pub open spec fn spec_available_bits_len(length: PartialPacketNumberLength) -> nat {
    match length {
        PartialPacketNumberLength::OneByte => 7,
        PartialPacketNumberLength::TwoBytes => 14,
        PartialPacketNumberLength::FourBytes => 30,
    }
}

/// The number of bits a partial packet number of this length takes up on the wire.
pub open spec fn spec_encoded_bits_len(length: PartialPacketNumberLength) -> nat {
    match length {
        PartialPacketNumberLength::OneByte => 8,
        PartialPacketNumberLength::TwoBytes => 16,
        PartialPacketNumberLength::FourBytes => 32,
    }
}

/// The length a partial packet number is written with: one byte below 2^7, two below 2^14 and
/// four otherwise.
pub open spec fn spec_partial_len(value: u32) -> PartialPacketNumberLength {
    if value < 0x80 {
        PartialPacketNumberLength::OneByte
    } else if value < 0x4000 {
        PartialPacketNumberLength::TwoBytes
    } else {
        PartialPacketNumberLength::FourBytes
    }
}

/// The multiples of `2^bits` just below, at and just above the largest multiple of `2^bits`
/// not above `value`; the one below is left out when there is none, the one above when it
/// would overflow.
pub open spec fn spec_epochs(value: u64, bits: nat) -> Seq<u64> {
    let delta = pow2(bits);
    let epoch = (value as nat / delta) * delta;
    (if epoch >= delta { seq![(epoch - delta) as u64] } else { Seq::<u64>::empty() })
        + seq![epoch as u64]
        + (if epoch + delta <= u64::MAX { seq![(epoch + delta) as u64] } else { Seq::<u64>::empty() })
}

/// The packet numbers `epoch + value` for the epochs whose sum is a valid packet number, in order.
pub open spec fn spec_candidates(epochs: Seq<u64>, value: nat) -> Seq<u64>
    decreases epochs.len(),
{
    if epochs.len() == 0 {
        Seq::empty()
    } else {
        spec_candidates(epochs.drop_last(), value) + if epochs.last() + value <= MAX_PACKET_NUMBER {
            seq![(epochs.last() + value) as u64]
        } else {
            Seq::<u64>::empty()
        }
    }
}

/// The distance between two integers.
pub open spec fn spec_distance(a: int, b: int) -> nat {
    if a > b {
        (a - b) as nat
    } else {
        (b - a) as nat
    }
}

/// The first of `candidates` that is closest to `target`.
pub open spec fn spec_first_closest(candidates: Seq<u64>, target: u64) -> u64
    decreases candidates.len(),
{
    if candidates.len() <= 1 {
        candidates[0]
    } else {
        let closest = spec_first_closest(candidates.drop_last(), target);
        if spec_distance(candidates.last() as int, target as int) < spec_distance(closest as int, target as int) {
            candidates.last()
        } else {
            closest
        }
    }
}

/// The packet number that a partial packet number stands for, given the largest acknowledged
/// packet number: with none, the partial value itself; otherwise, of the candidates around the
/// largest acknowledged one at the partial number's encoded width, the first closest to the packet
/// number after it; when there is no next packet number, the error that none can be inferred.
pub open spec fn spec_infer_packet_number(partial: u32, largest_acknowledged: Option<u64>) -> Result<u64, Error> {
    match largest_acknowledged {
        None => Ok(partial as u64),
        Some(largest) => if largest + 1 > MAX_PACKET_NUMBER {
            Err(Error::FailedToInferPacketNumber)
        } else {
            Ok(
                spec_first_closest(
                    spec_candidates(
                        spec_epochs(largest, spec_encoded_bits_len(spec_partial_len(partial))),
                        partial as nat,
                    ),
                    (largest + 1) as u64,
                ),
            )
        },
    }
}

/// The partial packet number for `packet_number` given the lowest unacknowledged packet number:
/// the low byte when they are at most 0x7f apart, the low 14 bits when at most 0x3fff apart and
/// the low 32 bits (which must not exceed 2^30 - 1) when at most 2^30 - 1 apart; otherwise, or when
/// the packet number is below the lowest unacknowledged one, the error that none can be built.
pub open spec fn spec_from_packet_number(packet_number: u64, lowest_unacknowledged: u64) -> Result<u32, Error> {
    if packet_number < lowest_unacknowledged {
        Err(Error::FailedToBuildPartialPacketNumber)
    } else {
        let diff = packet_number - lowest_unacknowledged;
        if diff <= 0x7f {
            Ok((packet_number % 0x100) as u32)
        } else if diff <= 0x3fff {
            Ok((packet_number % 0x4000) as u32)
        } else if diff <= 0x3fffffff {
            if packet_number % 0x1_0000_0000 <= MAX_PARTIAL_PACKET_NUMBER {
                Ok((packet_number % 0x1_0000_0000) as u32)
            } else {
                Err(Error::FailedToBuildPartialPacketNumber)
            }
        } else {
            Err(Error::FailedToBuildPartialPacketNumber)
        }
    }
}

/// The packet number after `value`, wrapping round to zero after the largest.
pub open spec fn spec_increment(value: u64) -> u64 {
    if value < MAX_PACKET_NUMBER {
        (value + 1) as u64
    } else {
        0
    }
}

/// Stepping a packet number on and back gives it again: decrementing undoes incrementing below
/// the largest packet number, and incrementing undoes decrementing above zero; the largest wraps
/// round to zero. So one packet number is immediately before another exactly when that one is
/// immediately after it.
pub proof fn lemma_increment_decrement(value: u64)
    requires
        value <= MAX_PACKET_NUMBER,
    ensures
        value < MAX_PACKET_NUMBER ==> spec_increment(value) - 1 == value,
        value > 0 ==> spec_increment((value - 1) as u64) == value,
        value == MAX_PACKET_NUMBER ==> spec_increment(value) == 0,
        spec_increment(value) <= MAX_PACKET_NUMBER,
{
}

impl PacketNumber {
    #[verifier::type_invariant]
    spec fn within_max(self) -> bool {
        self.0 <= MAX_PACKET_NUMBER
    }

    /// The packet number with the given value, or the error that it exceeds the maximum.
    pub fn try_from(value: u64) -> (r: Result<PacketNumber, Error>)
        ensures
            value <= MAX_PACKET_NUMBER ==> (r matches Ok(pn) && pn@ == value),
            value > MAX_PACKET_NUMBER ==> r == Err::<PacketNumber, Error>(
                Error::ValueExceedsTheMaximumPacketNumberValue(value),
            ),
    {
        if value > MAX_PACKET_NUMBER {
            Err(Error::ValueExceedsTheMaximumPacketNumberValue(value))
        } else {
            Ok(PacketNumber(value))
        }
    }

    pub fn from_u8(value: u8) -> (r: PacketNumber)
        ensures
            r@ == value,
    {
        PacketNumber(value as u64)
    }

    pub fn from_u16(value: u16) -> (r: PacketNumber)
        ensures
            r@ == value,
    {
        PacketNumber(value as u64)
    }

    pub fn from_u32(value: u32) -> (r: PacketNumber)
        ensures
            r@ == value,
    {
        PacketNumber(value as u64)
    }

    /// The value of the packet number.
    pub fn into_u64(self) -> (r: u64)
        ensures
            r == self@,
            r <= MAX_PACKET_NUMBER,
    {
        proof {
            use_type_invariant(&self);
        }
        self.0
    }

    /// The largest packet number.
    pub fn max_value() -> (r: PacketNumber)
        ensures
            r@ == MAX_PACKET_NUMBER,
    {
        PacketNumber(MAX_PACKET_NUMBER)
    }

    /// Attempts to get the next `PacketNumber`.
    /// `Option::None` is returned if the next packet number would exceed `PacketNumber::max_value()`.
    pub fn next(self) -> (r: Option<PacketNumber>)
        ensures
            self@ < MAX_PACKET_NUMBER ==> (r matches Some(n) && n@ == self@ + 1),
            self@ >= MAX_PACKET_NUMBER ==> r is None,
    {
        let value = self.into_u64();
        if value < MAX_PACKET_NUMBER {
            Some(PacketNumber(value + 1))
        } else {
            None
        }
    }

    /// The packet number after this one, wrapping round to zero after the largest.
    pub fn increment(&self) -> (r: PacketNumber)
        ensures
            r@ == spec_increment(self@),
    {
        let value = self.into_u64();
        if value < MAX_PACKET_NUMBER {
            PacketNumber(value + 1)
        } else {
            PacketNumber(0)
        }
    }

    /// The packet number before this one, which must not be zero.
    pub fn decrement(&self) -> (r: PacketNumber)
        requires
            self@ > 0,
        ensures
            r@ == self@ - 1,
    {
        let value = self.into_u64();
        PacketNumber(value - 1)
    }

    pub fn increment_ref(&mut self)
        ensures
            final(self)@ == spec_increment(old(self)@),
    {
        *self = self.increment();
    }

    pub fn decrement_ref(&mut self)
        requires
            old(self)@ > 0,
        ensures
            final(self)@ == old(self)@ - 1,
    {
        *self = self.decrement();
    }

    /// Whether `other` is the packet number after this one (wrapping round after the largest).
    pub fn is_immediately_before(&self, other: &Self) -> (r: bool)
        ensures
            r == (other@ == spec_increment(self@)),
    {
        self.increment().into_u64() == other.into_u64()
    }

    /// Whether this packet number is the one after `other` (wrapping round after the largest).
    pub fn is_immediately_after(&self, other: &Self) -> (r: bool)
        ensures
            r == (self@ == spec_increment(other@)),
    {
        other.is_immediately_before(self)
    }

    /// A packet number chosen at random from 0 to 2^32 - 1025, as the initial packet number must
    /// be.
    pub fn generate() -> (r: PacketNumber)
        ensures
            r@ < 4294966272,
    {
        let inner = thread_random_u32_in_range(0, 4294966272);
        PacketNumber(inner as u64)
    }

    /// Returns the "epochs" around this `PacketNumber` given the specified number of trailing bits are removed.
    pub fn epochs(self, remove_trailing_bits: u8) -> (r: Epochs)
        requires
            remove_trailing_bits < 64,
        ensures
            r@ == spec_epochs(self@, remove_trailing_bits as nat),
    {
        proof {
            lemma2_to64();
            lemma2_to64_rest();
            vstd::bits::lemma_u64_pow2_no_overflow(remove_trailing_bits as nat);
            lemma_u64_shl_is_mul(1, remove_trailing_bits as u64);
        }
        let delta: u64 = 1u64 << (remove_trailing_bits as u64);
        let value = self.into_u64();
        proof {
            vstd::arithmetic::div_mod::lemma_mod_decreases(value as nat, delta as nat);
        }
        let epoch = value - value % delta;
        proof {
            vstd::arithmetic::div_mod::lemma_fundamental_div_mod(value as int, delta as int);
            assert(epoch == (value as nat / delta as nat) * delta as nat) by (nonlinear_arith)
                requires
                    value as int == delta * (value as int / delta as int) + value as int % delta as int,
                    epoch == value - value % delta,
            ;
        }
        let mut result = epochs_new();
        let ghost expected = spec_epochs(value, remove_trailing_bits as nat);
        if let Some(first) = epoch.checked_sub(delta) {
            epochs_push(&mut result, first);
        }
        epochs_push(&mut result, epoch);
        if let Some(last) = epoch.checked_add(delta) {
            epochs_push(&mut result, last);
        }
        proof {
            assert(result@ =~= expected);
        }
        result
    }
}

impl From<u32> for PacketNumber {
    fn from(value: u32) -> (r: PacketNumber) {
        PacketNumber(value as u64)
    }
}

impl FromSpecImpl<u32> for PacketNumber {
    open spec fn obeys_from_spec() -> bool {
        true
    }

    closed spec fn from_spec(v: u32) -> PacketNumber {
        PacketNumber(v as u64)
    }
}

impl From<u16> for PacketNumber {
    fn from(value: u16) -> (r: PacketNumber) {
        PacketNumber(value as u64)
    }
}

impl FromSpecImpl<u16> for PacketNumber {
    open spec fn obeys_from_spec() -> bool {
        true
    }

    closed spec fn from_spec(v: u16) -> PacketNumber {
        PacketNumber(v as u64)
    }
}

impl From<u8> for PacketNumber {
    fn from(value: u8) -> (r: PacketNumber) {
        PacketNumber(value as u64)
    }
}

impl FromSpecImpl<u8> for PacketNumber {
    open spec fn obeys_from_spec() -> bool {
        true
    }

    closed spec fn from_spec(v: u8) -> PacketNumber {
        PacketNumber(v as u64)
    }
}

impl PartialPacketNumberLength {
    pub fn available_bits_len(self) -> (r: u8)
        ensures
            r == spec_available_bits_len(self),
    {
        match self {
            PartialPacketNumberLength::OneByte => 7,
            PartialPacketNumberLength::TwoBytes => 14,
            PartialPacketNumberLength::FourBytes => 30,
        }
    }

    pub fn encoded_bits_len(self) -> (r: u8)
        ensures
            r == spec_encoded_bits_len(self),
    {
        match self {
            PartialPacketNumberLength::OneByte => 8,
            PartialPacketNumberLength::TwoBytes => 16,
            PartialPacketNumberLength::FourBytes => 32,
        }
    }

    /// The largest distance a partial packet number of this length covers: 2^available - 1.
    pub fn threshold(self) -> (r: u64)
        ensures
            r == pow2(spec_available_bits_len(self)) - 1,
    {
        let bits = self.available_bits_len();
        proof {
            lemma2_to64();
            lemma_u64_shl_is_mul(2, (bits - 1) as u64);
            vstd::arithmetic::power2::lemma_pow2_adds(1, (bits - 1) as nat);
        }
        (2u64 << ((bits - 1) as u64)) - 1
    }
}

impl PartialPacketNumber {
    #[verifier::type_invariant]
    spec fn within_max(self) -> bool {
        self.0 <= MAX_PARTIAL_PACKET_NUMBER
    }

    /// The largest partial packet number.
    pub fn max_value() -> (r: PartialPacketNumber)
        ensures
            r@ == MAX_PARTIAL_PACKET_NUMBER,
    {
        PartialPacketNumber(MAX_PARTIAL_PACKET_NUMBER)
    }

    /// The value held.
    pub fn into_u32(self) -> (r: u32)
        ensures
            r == self@,
            r <= MAX_PARTIAL_PACKET_NUMBER,
    {
        proof {
            use_type_invariant(&self);
        }
        self.0
    }

    /// The partial packet number with the given value, or the error that it exceeds 2^30 - 1.
    pub fn try_from(value: u32) -> (r: Result<PartialPacketNumber, Error>)
        ensures
            value <= MAX_PARTIAL_PACKET_NUMBER ==> (r matches Ok(p) && p@ == value),
            value > MAX_PARTIAL_PACKET_NUMBER ==> r == Err::<PartialPacketNumber, Error>(
                Error::ValueExceedsTheMaximumPartialPacketNumberValue(value),
            ),
    {
        if value > MAX_PARTIAL_PACKET_NUMBER {
            Err(Error::ValueExceedsTheMaximumPartialPacketNumberValue(value))
        } else {
            Ok(PartialPacketNumber(value))
        }
    }

    /// The partial packet number of the low fourteen bits of `value`.
    pub fn from_u16(value: u16) -> (r: PartialPacketNumber)
        ensures
            r@ == value % 0x4000,
    {
        let masked = value & 0x3FFF;
        assert(masked == value % 0x4000) by (bit_vector)
            requires
                masked == value & 0x3FFFu16,
        ;
        PartialPacketNumber(masked as u32)
    }

    pub fn from_u8(value: u8) -> (r: PartialPacketNumber)
        ensures
            r@ == value,
    {
        PartialPacketNumber(value as u32)
    }

    /// The length this partial packet number is written with.
    pub fn len(self) -> (r: PartialPacketNumberLength)
        ensures
            r == spec_partial_len(self@),
    {
        if self.0 < 0x80 {
            PartialPacketNumberLength::OneByte
        } else if self.0 < 0x4000 {
            PartialPacketNumberLength::TwoBytes
        } else {
            PartialPacketNumberLength::FourBytes
        }
    }

    /// The partial packet number to send for `packet_number` when `lowest_unacknowledged` is the
    /// lowest packet number not yet acknowledged.
    pub fn from_packet_number(
        packet_number: PacketNumber,
        lowest_unacknowledged: PacketNumber,
    ) -> (r: Result<PartialPacketNumber, Error>)
        ensures
            match spec_from_packet_number(packet_number@, lowest_unacknowledged@) {
                Ok(value) => r matches Ok(p) && p@ == value,
                Err(e) => r == Err::<PartialPacketNumber, Error>(e),
            },
    {
        let packet_value = packet_number.into_u64();
        let diff = match packet_value.checked_sub(lowest_unacknowledged.into_u64()) {
            Some(diff) => diff,
            None => {
                return Err(Error::FailedToBuildPartialPacketNumber);
            },
        };
        if diff <= PartialPacketNumberLength::OneByte.threshold() {
            proof {
                lemma2_to64();
            }
            Ok(Self::from_u8((packet_value % 0x100) as u8))
        } else if diff <= PartialPacketNumberLength::TwoBytes.threshold() {
            proof {
                lemma2_to64();
            }
            let result = Self::from_u16((packet_value % 0x1_0000) as u16);
            assert((packet_value % 0x1_0000) % 0x4000 == packet_value % 0x4000) by (bit_vector);
            Ok(result)
        } else if diff <= PartialPacketNumberLength::FourBytes.threshold() {
            proof {
                lemma2_to64();
                lemma2_to64_rest();
            }
            match Self::try_from((packet_value % 0x1_0000_0000) as u32) {
                Ok(partial) => Ok(partial),
                Err(_) => Err(Error::FailedToBuildPartialPacketNumber),
            }
        } else {
            proof {
                lemma2_to64();
                lemma2_to64_rest();
            }
            Err(Error::FailedToBuildPartialPacketNumber)
        }
    }

    /// Infers the full packet number this partial packet number stands for, given the largest
    /// acknowledged packet number.
    pub fn infer_packet_number(self, largest_acknowledged: Option<PacketNumber>) -> (r: Result<
        PacketNumber,
        Error,
    >)
        ensures
            match spec_infer_packet_number(
                self@,
                match largest_acknowledged {
                    Some(pn) => Some(pn@),
                    None => None,
                },
            ) {
                Ok(value) => r matches Ok(pn) && pn@ == value,
                Err(e) => r == Err::<PacketNumber, Error>(e),
            },
    {
        let self_as_integer = self.into_u32() as u64;
        match largest_acknowledged {
            None => Ok(PacketNumber(self_as_integer)),
            Some(largest_acknowledged) => {
                let next = match largest_acknowledged.next() {
                    Some(next) => next,
                    None => {
                        return Err(Error::FailedToInferPacketNumber);
                    },
                };
                let largest = largest_acknowledged.into_u64();
                let bits = self.len().encoded_bits_len();
                let epochs = largest_acknowledged.epochs(bits);
                let next_u64 = next.into_u64();
                let ghost candidates = spec_candidates(epochs@, self_as_integer as nat);
                proof {
                    lemma2_to64();
                    lemma2_to64_rest();
                    lemma_middle_candidate(largest, bits as nat, self_as_integer as nat);
                }
                let count = epochs_len(&epochs);
                let mut closest: u64 = 0;
                let mut found = false;
                let mut i: usize = 0;
                while i < count
                    invariant
                        count == epochs@.len(),
                        i <= count,
                        self_as_integer <= MAX_PARTIAL_PACKET_NUMBER,
                        forall|j: int| 0 <= j < epochs@.len() ==> #[trigger] epochs@[j] <= u64::MAX - 0x1_0000_0000,
                        found == (spec_candidates(epochs@.take(i as int), self_as_integer as nat).len() > 0),
                        found ==> closest == spec_first_closest(
                            spec_candidates(epochs@.take(i as int), self_as_integer as nat),
                            next_u64,
                        ),
                        found ==> closest <= MAX_PACKET_NUMBER,
                    decreases count - i,
                {
                    let epoch = epochs_get(&epochs, i);
                    let candidate = epoch + self_as_integer;
                    proof {
                        assert(epochs@.take(i + 1).drop_last() =~= epochs@.take(i as int));
                        assert(epochs@.take(i + 1).last() == epoch);
                    }
                    if candidate <= MAX_PACKET_NUMBER {
                        let ghost previous = spec_candidates(epochs@.take(i as int), self_as_integer as nat);
                        proof {
                            assert(spec_candidates(epochs@.take(i + 1), self_as_integer as nat)
                                =~= previous.push(candidate));
                            assert(previous.push(candidate).drop_last() =~= previous);
                        }
                        if !found || candidate.abs_delta(next_u64) < closest.abs_delta(next_u64) {
                            closest = candidate;
                        }
                        found = true;
                    } else {
                        proof {
                            assert(spec_candidates(epochs@.take(i + 1), self_as_integer as nat)
                                =~= spec_candidates(epochs@.take(i as int), self_as_integer as nat));
                        }
                    }
                    i = i + 1;
                }
                proof {
                    assert(epochs@.take(count as int) =~= epochs@);
                }
                Ok(PacketNumber(closest))
            },
        }
    }
}

/// What reading a partial packet number from the front of `bytes` gives: a first byte below 0x80
/// is the whole (one-byte) number; from 0x80 it starts a two-byte number and from 0xc0 a four-byte
/// number, whose value is the big-endian value of its bytes once the two length bits are cleared.
pub open spec fn spec_read_partial_packet_number(bytes: Seq<u8>) -> Result<(u32, nat), Error> {
    if bytes.len() == 0 {
        Err(Error::FailedToReadPartialPacketNumber)
    } else {
        let first = bytes[0];
        if first < 0x80 {
            Ok((first as u32, 1))
        } else if first < 0xc0 {
            if bytes.len() < 2 {
                Err(Error::FailedToReadPartialPacketNumber)
            } else {
                Ok((be_value(seq![(first % 64) as u8] + bytes.subrange(1, 2)) as u32, 2))
            }
        } else {
            if bytes.len() < 4 {
                Err(Error::FailedToReadPartialPacketNumber)
            } else {
                Ok((be_value(seq![(first % 64) as u8] + bytes.subrange(1, 4)) as u32, 4))
            }
        }
    }
}

/// The bytes a partial packet number is written as: one byte below 2^7; otherwise two bytes with
/// the top bits `10`, or four bytes with the top bits `11`, in front of the value.
pub open spec fn spec_write_partial_packet_number(value: u32) -> Seq<u8> {
    match spec_partial_len(value) {
        PartialPacketNumberLength::OneByte => seq![value as u8],
        PartialPacketNumberLength::TwoBytes => be_bytes((0x8000 + value) as nat, 2),
        PartialPacketNumberLength::FourBytes => be_bytes((0xC000_0000 + value) as nat, 4),
    }
}

/// Writing a partial packet number and reading it back gives the number and the bytes written,
/// whatever follows it.
pub proof fn lemma_partial_packet_number_round_trip(value: u32, rest: Seq<u8>)
    requires
        value <= MAX_PARTIAL_PACKET_NUMBER,
    ensures
        spec_read_partial_packet_number(spec_write_partial_packet_number(value) + rest)
            == Ok::<(u32, nat), Error>((value, spec_write_partial_packet_number(value).len())),
        spec_write_partial_packet_number(value).len() == spec_encoded_bits_len(spec_partial_len(value)) / 8,
{
    lemma_pow256_values();
    match spec_partial_len(value) {
        PartialPacketNumberLength::OneByte => {
            let whole = seq![value as u8] + rest;
            assert(whole[0] == value as u8);
        },
        PartialPacketNumberLength::TwoBytes => {
            lemma_be_tagged(value as nat, 2, 2);
            let bytes = be_bytes((0x8000 + value) as nat, 2);
            assert(2 * 64 * pow256(1) + value == 0x8000 + value);
            let whole = bytes + rest;
            assert(whole[0] == bytes[0]);
            assert(whole.subrange(1, 2) =~= bytes.drop_first());
        },
        PartialPacketNumberLength::FourBytes => {
            lemma_be_tagged(value as nat, 3, 4);
            let bytes = be_bytes((0xC000_0000 + value) as nat, 4);
            assert(3 * 64 * pow256(3) + value == 0xC000_0000 + value);
            let whole = bytes + rest;
            assert(whole[0] == bytes[0]);
            assert(whole.subrange(1, 4) =~= bytes.drop_first());
        },
    }
}

impl Readable for PartialPacketNumber {
    open spec fn spec_read(bytes: Seq<u8>) -> Result<(u32, nat), Error> {
        spec_read_partial_packet_number(bytes)
    }

    proof fn lemma_read_bounds(bytes: Seq<u8>) {
    }

    fn read(bytes: &[u8]) -> (res: Result<(PartialPacketNumber, usize), Error>) {
        let first_byte = match u8::read(bytes) {
            Ok((byte, _)) => byte,
            Err(_) => {
                return Err(Error::FailedToReadPartialPacketNumber);
            },
        };
        let top_bits = (first_byte >> 6) & 0b11;
        let low_six = first_byte & 0x3f;
        assert(top_bits == first_byte / 64 && low_six == first_byte % 64) by (bit_vector)
            requires
                top_bits == (first_byte >> 6u8) & 0b11u8,
                low_six == first_byte & 0x3fu8,
        ;
        proof {
            lemma_pow256_values();
        }
        if top_bits == 0b11 {
            if bytes.len() < 4 {
                return Err(Error::FailedToReadPartialPacketNumber);
            }
            let second_byte = bytes[1];
            let last_2_bytes = match u16::read(vstd::slice::slice_subrange(bytes, 2, bytes.len())) {
                Ok((value, _)) => value,
                Err(_) => {
                    return Err(Error::FailedToReadPartialPacketNumber);
                },
            };
            let value: u32 = (low_six as u32) * 0x100_0000 + (second_byte as u32) * 0x1_0000
                + last_2_bytes as u32;
            proof {
                let tail = bytes@.subrange(1, 4);
                lemma_be_value_append(seq![low_six], tail);
                lemma_be_value_single(low_six);
                lemma_be_value_append(seq![second_byte], bytes@.subrange(2, 4));
                lemma_be_value_single(second_byte);
                assert(tail =~= seq![second_byte] + bytes@.subrange(2, 4));
                assert(bytes@.subrange(2, bytes@.len() as int).take(2) =~= bytes@.subrange(2, 4));
                lemma_be_value_bound(bytes@.subrange(2, 4));
                assert(last_2_bytes == be_value(bytes@.subrange(2, 4)));
                let tail_value = be_value(tail);
                assert(tail_value == second_byte as nat * pow256(2) + last_2_bytes);
                assert(tail_value == second_byte as nat * 0x1_0000 + last_2_bytes);
                assert(be_value(seq![low_six] + tail) == low_six as nat * pow256(3) + tail_value);
                assert(be_value(seq![low_six] + tail) == low_six as nat * 0x100_0000 + tail_value);
                assert(seq![(first_byte % 64) as u8] =~= seq![low_six]);
                assert(be_value(seq![(first_byte % 64) as u8] + bytes@.subrange(1, 4)) == value);
                assert(value <= MAX_PARTIAL_PACKET_NUMBER);
            }
            match Self::try_from(value) {
                Ok(partial) => Ok((partial, 4)),
                Err(e) => Err(e),
            }
        } else if top_bits == 0b10 {
            if bytes.len() < 2 {
                return Err(Error::FailedToReadPartialPacketNumber);
            }
            let second_byte = bytes[1];
            let value: u16 = (low_six as u16) * 0x100 + second_byte as u16;
            proof {
                lemma_be_value_append(seq![low_six], bytes@.subrange(1, 2));
                lemma_be_value_single(low_six);
                lemma_be_value_single(second_byte);
                assert(bytes@.subrange(1, 2) =~= seq![second_byte]);
            }
            assert(value < 0x4000);
            assert(value % 0x4000 == value);
            let partial = Self::from_u16(value);
            assert(be_value(seq![(first_byte % 64) as u8] + bytes@.subrange(1, 2)) == value);
            Ok((partial, 2))
        } else {
            let value = first_byte & 0x7f;
            assert(value == first_byte) by (bit_vector)
                requires
                    value == first_byte & 0x7fu8,
                    first_byte < 0x80u8,
            ;
            assert(first_byte < 0x80);
            Ok((Self::from_u8(value), 1))
        }
    }
}

impl Writable for PartialPacketNumber {
    open spec fn spec_write(value: u32) -> Result<Seq<u8>, Error> {
        Ok(spec_write_partial_packet_number(value))
    }

    open spec fn write_requires(value: u32) -> bool {
        true
    }

    fn write(&self, out: &mut Vec<u8>) -> (res: Result<(), Error>) {
        let value = self.into_u32();
        proof {
            lemma_pow256_values();
        }
        match self.len() {
            PartialPacketNumberLength::OneByte => (value as u8).write(out),
            PartialPacketNumberLength::TwoBytes => (0x8000u16 + value as u16).write(out),
            PartialPacketNumberLength::FourBytes => (0xC000_0000u32 + value).write(out),
        }
    }
}

/// The candidates of two runs of epochs one after the other are those of each, one after the other.
pub proof fn lemma_candidates_append(a: Seq<u64>, b: Seq<u64>, value: nat)
    ensures
        spec_candidates(a + b, value) == spec_candidates(a, value) + spec_candidates(b, value),
    decreases b.len(),
{
    if b.len() == 0 {
        assert(a + b =~= a);
        assert(spec_candidates(a, value) + spec_candidates(b, value) =~= spec_candidates(a, value));
    } else {
        lemma_candidates_append(a, b.drop_last(), value);
        assert((a + b).drop_last() =~= a + b.drop_last());
        assert((a + b).last() == b.last());
        let tail = if b.last() + value <= MAX_PACKET_NUMBER {
            seq![(b.last() + value) as u64]
        } else {
            Seq::<u64>::empty()
        };
        assert(spec_candidates(a, value) + spec_candidates(b.drop_last(), value) + tail
            =~= spec_candidates(a, value) + (spec_candidates(b.drop_last(), value) + tail));
    }
}

proof fn lemma_candidates_single(e: u64, value: nat)
    ensures
        spec_candidates(seq![e], value) == (if e + value <= MAX_PACKET_NUMBER {
            seq![(e + value) as u64]
        } else {
            Seq::<u64>::empty()
        }),
{
    assert(seq![e].drop_last() =~= Seq::<u64>::empty());
    assert(spec_candidates(Seq::<u64>::empty(), value) =~= Seq::<u64>::empty());
    assert(Seq::<u64>::empty() + (if e + value <= MAX_PACKET_NUMBER {
        seq![(e + value) as u64]
    } else {
        Seq::<u64>::empty()
    }) =~= (if e + value <= MAX_PACKET_NUMBER {
        seq![(e + value) as u64]
    } else {
        Seq::<u64>::empty()
    }));
}

/// The middle epoch plus any partial value below 2^30 is a valid packet number whenever there is a
/// next packet number, and no epoch comes near overflow.
proof fn lemma_middle_candidate(largest: u64, bits: nat, value: nat)
    requires
        largest < MAX_PACKET_NUMBER,
        bits == 8 || bits == 16 || bits == 32,
        value < pow2(bits),
        value <= MAX_PARTIAL_PACKET_NUMBER,
    ensures
        spec_candidates(spec_epochs(largest, bits), value).len() > 0,
        forall|j: int| 0 <= j < spec_epochs(largest, bits).len() ==> #[trigger] spec_epochs(largest, bits)[j] <= u64::MAX - 0x1_0000_0000,
{
    lemma2_to64();
    lemma2_to64_rest();
    let d = pow2(bits);
    let q = largest as nat / d;
    let epoch = q * d;
    vstd::arithmetic::div_mod::lemma_fundamental_div_mod(largest as int, d as int);
    assert(epoch <= largest);
    assert(epoch + value <= MAX_PACKET_NUMBER) by {
        if bits == 8 {
            assert(q * 256 <= largest);
        } else if bits == 16 {
            assert(q * 65536 <= largest);
        } else {
            assert(q * 0x1_0000_0000 <= largest);
        }
    }
    let lower = if epoch >= d { seq![(epoch - d) as u64] } else { Seq::<u64>::empty() };
    let upper = if epoch + d <= u64::MAX { seq![(epoch + d) as u64] } else { Seq::<u64>::empty() };
    let epochs = spec_epochs(largest, bits);
    assert(epochs == lower + seq![epoch as u64] + upper);
    lemma_candidates_append(lower + seq![epoch as u64], upper, value);
    lemma_candidates_append(lower, seq![epoch as u64], value);
    lemma_candidates_single(epoch as u64, value);
    assert(spec_candidates(epochs, value).len() >= 1);
}


/// The first closest is one of the candidates.
proof fn lemma_first_closest_member(candidates: Seq<u64>, target: u64) -> (i: int)
    requires
        candidates.len() > 0,
    ensures
        0 <= i < candidates.len(),
        candidates[i] == spec_first_closest(candidates, target),
    decreases candidates.len(),
{
    if candidates.len() == 1 {
        0
    } else {
        let rest = candidates.drop_last();
        let k = lemma_first_closest_member(rest, target);
        if spec_distance(candidates.last() as int, target as int) < spec_distance(
            spec_first_closest(rest, target) as int,
            target as int,
        ) {
            candidates.len() - 1
        } else {
            k
        }
    }
}

/// No candidate is closer to the target than the first closest.
proof fn lemma_first_closest_is_closest(candidates: Seq<u64>, target: u64)
    requires
        candidates.len() > 0,
    ensures
        forall|i: int| 0 <= i < candidates.len() ==> spec_distance(spec_first_closest(candidates, target) as int, target as int)
            <= spec_distance(#[trigger] candidates[i] as int, target as int),
    decreases candidates.len(),
{
    if candidates.len() > 1 {
        let rest = candidates.drop_last();
        lemma_first_closest_is_closest(rest, target);
        assert forall|i: int| 0 <= i < candidates.len() implies spec_distance(spec_first_closest(candidates, target) as int, target as int)
            <= spec_distance(#[trigger] candidates[i] as int, target as int) by {
            if i < rest.len() {
                assert(rest[i] == candidates[i]);
            }
        }
    }
}

/// Inferring from a partial packet number, given a largest acknowledged packet number that has
/// one after it, picks a packet number ending in the partial value from around the largest
/// acknowledged one, and none of those candidates lies closer to the packet number after the
/// largest acknowledged one.
pub proof fn lemma_infer_picks_a_closest_candidate(partial: u32, largest_acknowledged: u64)
    requires
        partial <= MAX_PARTIAL_PACKET_NUMBER,
        largest_acknowledged < MAX_PACKET_NUMBER,
    ensures
        ({
            let candidates = spec_candidates(
                spec_epochs(largest_acknowledged, spec_encoded_bits_len(spec_partial_len(partial))),
                partial as nat,
            );
            let target = (largest_acknowledged + 1) as u64;
            &&& spec_infer_packet_number(partial, Some(largest_acknowledged)) matches Ok(inferred)
            &&& candidates.contains(inferred)
            &&& forall|i: int| 0 <= i < candidates.len() ==> spec_distance(inferred as int, target as int)
                <= spec_distance(#[trigger] candidates[i] as int, target as int)
        }),
{
    lemma2_to64();
    lemma2_to64_rest();
    let bits = spec_encoded_bits_len(spec_partial_len(partial));
    let candidates = spec_candidates(spec_epochs(largest_acknowledged, bits), partial as nat);
    let target = (largest_acknowledged + 1) as u64;
    lemma_middle_candidate(largest_acknowledged, bits, partial as nat);
    let i = lemma_first_closest_member(candidates, target);
    lemma_first_closest_is_closest(candidates, target);
    assert(candidates[i] == spec_first_closest(candidates, target));
}

/// A candidate strictly closer to the target than every one before it, and at least as close as
/// every one after it, is the first closest.
proof fn lemma_first_closest_at(candidates: Seq<u64>, target: u64, j: int)
    requires
        0 <= j < candidates.len(),
        forall|i: int| 0 <= i < j ==> spec_distance(#[trigger] candidates[i] as int, target as int)
            > spec_distance(candidates[j] as int, target as int),
        forall|i: int| j < i < candidates.len() ==> spec_distance(#[trigger] candidates[i] as int, target as int)
            >= spec_distance(candidates[j] as int, target as int),
    ensures
        spec_first_closest(candidates, target) == candidates[j],
    decreases candidates.len(),
{
    if candidates.len() > 1 {
        let rest = candidates.drop_last();
        if j == candidates.len() - 1 {
            let k = lemma_first_closest_member(rest, target);
            assert(candidates[k] == rest[k]);
        } else {
            assert forall|i: int| 0 <= i < j implies spec_distance(#[trigger] rest[i] as int, target as int)
                > spec_distance(rest[j] as int, target as int) by {
                assert(rest[i] == candidates[i]);
            }
            assert forall|i: int| j < i < rest.len() implies spec_distance(#[trigger] rest[i] as int, target as int)
                >= spec_distance(rest[j] as int, target as int) by {
                assert(rest[i] == candidates[i]);
            }
            lemma_first_closest_at(rest, target, j);
            assert(candidates[candidates.len() - 1] == candidates.last());
        }
    }
}

/// The span of the epochs a partial packet number is read against: 2 to the number of bits it
/// takes up on the wire.
pub open spec fn spec_partial_span(partial: u32) -> nat {
    pow2(spec_encoded_bits_len(spec_partial_len(partial)))
}

/// Inferring the partial packet number built for a packet number, with the lowest unacknowledged
/// packet number it was built against taken as the largest acknowledged one, gives back that
/// packet number, wherever it can: that is, when there is a packet number after the lowest
/// unacknowledged one, when the partial value is the packet number modulo its span, and when the
/// packet number is at most half a span above the lowest unacknowledged one or below one span.
pub proof fn lemma_infer_inverts_from_packet_number(
    packet_number: u64,
    lowest_unacknowledged: u64,
    partial: u32,
)
    requires
        packet_number <= MAX_PACKET_NUMBER,
        lowest_unacknowledged < MAX_PACKET_NUMBER,
        spec_from_packet_number(packet_number, lowest_unacknowledged) == Ok::<u32, Error>(partial),
        packet_number as nat % spec_partial_span(partial) == partial,
        2 * (packet_number - lowest_unacknowledged) <= spec_partial_span(partial)
            || packet_number < spec_partial_span(partial),
    ensures
        spec_infer_packet_number(partial, Some(lowest_unacknowledged)) == Ok::<u64, Error>(packet_number),
{
    lemma2_to64();
    lemma2_to64_rest();
    let bits = spec_encoded_bits_len(spec_partial_len(partial));
    let d = pow2(bits) as int;
    let pn = packet_number as int;
    let lu = lowest_unacknowledged as int;
    let p = partial as int;
    let diff = pn - lu;
    assert(d == 256 || d == 65536 || d == 0x1_0000_0000);
    let a = pn / d;
    let b = lu / d;
    vstd::arithmetic::div_mod::lemma_fundamental_div_mod(pn, d);
    vstd::arithmetic::div_mod::lemma_fundamental_div_mod(lu, d);
    assert(0 <= lu % d < d);
    assert(pn == d * a + p);
    let e = b * d;
    assert(e == d * b) by (nonlinear_arith)
        requires
            e == b * d,
    ;
    assert(b >= 0 && a >= 0) by (nonlinear_arith)
        requires
            pn >= 0,
            lu >= 0,
            d > 0,
            a == pn / d,
            b == lu / d,
    ;
    assert(a == b || a == b + 1) by (nonlinear_arith)
        requires
            pn == d * a + p,
            0 <= p < d,
            lu == d * b + lu % d,
            0 <= lu % d < d,
            lu <= pn,
            2 * (pn - lu) <= d || pn < d,
            a >= 0,
            b >= 0,
    {
        if a < b {
            assert(a * d + d <= b * d);
        }
        if a >= b + 2 {
            assert(a * d >= b * d + 2 * d);
        }
        if pn < d {
            assert(a == 0);
            if b > 0 {
                assert(b * d >= d);
            }
        }
    }
    let epochs = spec_epochs(lowest_unacknowledged, bits);
    assert(e == (lowest_unacknowledged as nat / pow2(bits)) * pow2(bits));
    let lower = if e >= d { seq![(e - d) as u64] } else { Seq::<u64>::empty() };
    let upper = if e + d <= u64::MAX { seq![(e + d) as u64] } else { Seq::<u64>::empty() };
    assert(epochs == lower + seq![e as u64] + upper);
    lemma_candidates_append(lower + seq![e as u64], upper, partial as nat);
    lemma_candidates_append(lower, seq![e as u64], partial as nat);
    lemma_candidates_single(e as u64, partial as nat);
    let ca = spec_candidates(lower, partial as nat);
    let cb = spec_candidates(seq![e as u64], partial as nat);
    let cc = spec_candidates(upper, partial as nat);
    if e >= d {
        lemma_candidates_single((e - d) as u64, partial as nat);
    } else {
        assert(spec_candidates(lower, partial as nat) =~= Seq::<u64>::empty());
    }
    if e + d <= u64::MAX {
        lemma_candidates_single((e + d) as u64, partial as nat);
    } else {
        assert(spec_candidates(upper, partial as nat) =~= Seq::<u64>::empty());
    }
    let candidates = spec_candidates(epochs, partial as nat);
    assert(candidates == ca + cb + cc);
    let target = (lowest_unacknowledged + 1) as u64;
    let here = spec_distance(pn, target as int);
    assert(a == b ==> pn == e + p);
    assert(a == b + 1 ==> pn == e + d + p) by (nonlinear_arith)
        requires
            pn == d * a + p,
            e == d * b,
    ;
    if a == b {
        // The packet number is the candidate of the middle epoch.
        let j = ca.len() as int;
        assert(cb =~= seq![packet_number]);
        assert(candidates[j] == packet_number);
        assert forall|i: int| 0 <= i < j implies spec_distance(#[trigger] candidates[i] as int, target as int) > here by {
            assert(candidates[i] == ca[i]);
            assert(e >= d);
            assert(ca[i] == pn - d);
        }
        assert forall|i: int| j < i < candidates.len() implies spec_distance(#[trigger] candidates[i] as int, target as int) >= here by {
            assert(candidates[i] == cc[i - j - 1]);
            assert(cc[i - j - 1] == pn + d);
        }
        lemma_first_closest_at(candidates, target, j);
    } else {
        // The packet number is the candidate of the epoch above.
        assert(e + p < pn);
        assert(cb =~= seq![(e + p) as u64]);
        assert(e + d <= u64::MAX);
        assert(cc =~= seq![packet_number]);
        let j = ca.len() as int + 1;
        assert(candidates[j] == packet_number);
        assert forall|i: int| 0 <= i < j implies spec_distance(#[trigger] candidates[i] as int, target as int) > here by {
            if i == j - 1 {
                assert(candidates[i] == e + p);
            } else {
                assert(candidates[i] == ca[i]);
                assert(ca[i] == pn - 2 * d);
            }
        }
        lemma_first_closest_at(candidates, target, j);
    }
}

} // verus!
