use vstd::prelude::*;
use vstd::arithmetic::power2::{pow2, lemma2_to64, lemma2_to64_rest};
use vstd::std_specs::convert::FromSpecImpl;
use crate::errors::Error;
use crate::primitives::abs_delta::AbsDelta;
use crate::primitives::u48::U48;
use crate::packets::epochs::{epochs_len, epochs_get};
use crate::packets::packet_number::{
    PacketNumber, MAX_PACKET_NUMBER, spec_epochs, spec_first_closest,
};
use crate::packets::packet_number_length::{PacketNumberLength, spec_length_bytes};
use crate::primitives::byte_order_primitives::{
    ByteOrderPrimitives, be_bytes, be_value, lemma_be_bytes_value, lemma_be_value_bound, lemma_pow256_values, pow256,
};
use crate::protocol::readable::Readable;
use crate::protocol::writable::Writable;

verus! {

/// A partial packet number of the older packet layout, consisting of only the lower bytes, with
/// as many bytes as it was sent with.
#[derive(Debug, Clone, Copy, Eq, PartialEq, Ord, PartialOrd, Hash)]
pub enum PartialPacketNumber {
    OneByte(u8),
    TwoBytes(u16),
    FourBytes(u32),
    SixBytes(U48),
}

impl View for PartialPacketNumber {
    /// The length and the value.
    type V = (PacketNumberLength, u64);

    open spec fn view(&self) -> (PacketNumberLength, u64) {
        (spec_partial_length(*self), spec_partial_value(*self))
    }
}

/// What reading a partial packet number of the given length from the front of `bytes` gives: the
/// big-endian value of that many bytes.
pub open spec fn spec_read_legacy_partial(bytes: Seq<u8>, length: PacketNumberLength) -> Result<((PacketNumberLength, u64), nat), Error> {
    let n = spec_length_bytes(length);
    if bytes.len() < n {
        Err(
            match length {
                PacketNumberLength::OneByte => Error::FailedToReadU8,
                PacketNumberLength::TwoBytes => Error::FailedToReadU16,
                PacketNumberLength::FourBytes => Error::FailedToReadU32,
                PacketNumberLength::SixBytes => Error::FailedToReadBytes,
            },
        )
    } else {
        Ok(((length, be_value(bytes.take(n as int)) as u64), n))
    }
}

/// The bytes a partial packet number is written as: its value in big-endian order in as many
/// bytes as its length.
pub open spec fn spec_write_legacy_partial(partial: (PacketNumberLength, u64)) -> Seq<u8> {
    be_bytes(partial.1 as nat, spec_length_bytes(partial.0))
}

/// The value of a partial packet number.
pub open spec fn spec_partial_value(partial: PartialPacketNumber) -> u64 {
    match partial {
        PartialPacketNumber::OneByte(value) => value as u64,
        PartialPacketNumber::TwoBytes(value) => value as u64,
        PartialPacketNumber::FourBytes(value) => value as u64,
        PartialPacketNumber::SixBytes(value) => value@,
    }
}

/// The length of a partial packet number.
pub open spec fn spec_partial_length(partial: PartialPacketNumber) -> PacketNumberLength {
    match partial {
        PartialPacketNumber::OneByte(_) => PacketNumberLength::OneByte,
        PartialPacketNumber::TwoBytes(_) => PacketNumberLength::TwoBytes,
        PartialPacketNumber::FourBytes(_) => PacketNumberLength::FourBytes,
        PartialPacketNumber::SixBytes(_) => PacketNumberLength::SixBytes,
    }
}

/// `epoch + value` for each epoch, in order.
pub open spec fn spec_epoch_sums(epochs: Seq<u64>, value: u64) -> Seq<u64> {
    Seq::new(epochs.len(), |j: int| (epochs[j] + value) as u64)
}

/// The packet number a partial packet number of the older layout stands for: with no largest
/// acknowledged packet number, its value; otherwise, of its value added to each of the epochs
/// around the largest acknowledged one (at its bit length), the first closest to the packet
/// number after the largest acknowledged one, which must be a valid packet number. When there
/// is no packet number after the largest acknowledged one, none can be inferred.
pub open spec fn spec_infer_from_partial(
    partial: PartialPacketNumber,
    largest_acknowledged: Option<u64>,
) -> Result<u64, Error> {
    match largest_acknowledged {
        None => Ok(spec_partial_value(partial)),
        Some(largest) => if largest >= MAX_PACKET_NUMBER {
            Err(Error::UnableToInferPacketNumber)
        } else {
            let closest = spec_first_closest(
                spec_epoch_sums(
                    spec_epochs(largest, 8 * spec_length_bytes(spec_partial_length(partial))),
                    spec_partial_value(partial),
                ),
                (largest + 1) as u64,
            );
            if closest <= MAX_PACKET_NUMBER {
                Ok(closest)
            } else {
                Err(Error::ValueExceedsTheMaximumPacketNumberValue(closest))
            }
        },
    }
}

/// No epoch around a packet number, at a bit length of at most 48, exceeds the packet number
/// plus 2^48.
proof fn lemma_epochs_bounded(value: u64, bits: nat)
    requires
        value <= MAX_PACKET_NUMBER,
        bits <= 48,
    ensures
        spec_epochs(value, bits).len() > 0,
        forall|j: int| 0 <= j < spec_epochs(value, bits).len()
            ==> #[trigger] spec_epochs(value, bits)[j] <= MAX_PACKET_NUMBER + 0x1_0000_0000_0000,
{
    lemma2_to64();
    lemma2_to64_rest();
    vstd::arithmetic::power2::lemma_pow2_pos(bits);
    if bits < 48 {
        vstd::arithmetic::power2::lemma_pow2_strictly_increases(bits, 48);
    }
    let delta = pow2(bits);
    let epoch = (value as nat / delta) * delta;
    vstd::arithmetic::div_mod::lemma_fundamental_div_mod(value as int, delta as int);
    assert(epoch <= value) by (nonlinear_arith)
        requires
            value as int == delta * (value as int / delta as int) + value as int % delta as int,
            epoch == (value as nat / delta) * delta,
            value as int % delta as int >= 0,
    ;
    assert(delta <= 0x1_0000_0000_0000);
}

impl PartialPacketNumber {
    /// Infers the full packet number this partial packet number stands for, given the largest
    /// acknowledged packet number.
    pub fn infer_packet_number(self, largest_acknowledged: Option<PacketNumber>) -> (r: Result<
        PacketNumber,
        Error,
    >)
        ensures
            match spec_infer_from_partial(
                self,
                match largest_acknowledged {
                    Some(pn) => Some(pn@),
                    None => None,
                },
            ) {
                Ok(value) => r matches Ok(pn) && pn@ == value,
                Err(e) => r == Err::<PacketNumber, Error>(e),
            },
    {
        proof {
            lemma2_to64();
            lemma2_to64_rest();
        }
        let value = u64::from(self);
        match largest_acknowledged {
            None => PacketNumber::try_from(value),
            Some(largest_acknowledged) => {
                if largest_acknowledged.next().is_none() {
                    return Err(Error::UnableToInferPacketNumber);
                }
                let next_u64 = largest_acknowledged.into_u64() + 1;
                let bits = self.len().bit_len();
                let epochs = largest_acknowledged.epochs(bits);
                let ghost sums = spec_epoch_sums(epochs@, value);
                proof {
                    lemma_epochs_bounded(largest_acknowledged@, bits as nat);
                }
                let count = epochs_len(&epochs);
                let mut closest: u64 = epochs_get(&epochs, 0) + value;
                proof {
                    assert(sums.take(1).len() == 1);
                    assert(sums.take(1)[0] == sums[0]);
                }
                let mut i: usize = 1;
                while i < count
                    invariant
                        count == epochs@.len(),
                        1 <= i <= count,
                        value < 0x1_0000_0000_0000,
                        sums == spec_epoch_sums(epochs@, value),
                        forall|j: int| 0 <= j < epochs@.len()
                            ==> #[trigger] epochs@[j] <= MAX_PACKET_NUMBER + 0x1_0000_0000_0000,
                        closest == spec_first_closest(sums.take(i as int), next_u64),
                    decreases count - i,
                {
                    let candidate = epochs_get(&epochs, i) + value;
                    proof {
                        assert(sums.take(i + 1).drop_last() =~= sums.take(i as int));
                        assert(sums.take(i + 1).last() == candidate);
                    }
                    if candidate.abs_delta(next_u64) < closest.abs_delta(next_u64) {
                        closest = candidate;
                    }
                    i = i + 1;
                }
                proof {
                    assert(sums.take(count as int) =~= sums);
                }
                PacketNumber::try_from(closest)
            },
        }
    }

    /// The length this partial packet number was sent with.
    pub fn len(self) -> (r: PacketNumberLength)
        ensures
            r == spec_partial_length(self),
    {
        match self {
            PartialPacketNumber::OneByte(_) => PacketNumberLength::OneByte,
            PartialPacketNumber::TwoBytes(_) => PacketNumberLength::TwoBytes,
            PartialPacketNumber::FourBytes(_) => PacketNumberLength::FourBytes,
            PartialPacketNumber::SixBytes(_) => PacketNumberLength::SixBytes,
        }
    }
}

impl PartialPacketNumber {
    /// Reads a partial packet number of the given length from the front of `bytes`.
    pub fn read(bytes: &[u8], length: PacketNumberLength) -> (r: Result<(PartialPacketNumber, usize), Error>)
        ensures
            match spec_read_legacy_partial(bytes@, length) {
                Ok((value, n)) => r matches Ok((p, m)) && p@ == value && m == n,
                Err(e) => r == Err::<(PartialPacketNumber, usize), Error>(e),
            },
    {
        proof {
            lemma_pow256_values();
        }
        match length {
            PacketNumberLength::OneByte => match u8::read(bytes) {
                Ok((value, n)) => {
                    proof {
                        lemma_pow256_values();
                        assert(bytes@.take(1) =~= seq![value]);
                        assert(be_value(bytes@.take(1).drop_last()) == 0);
                    }
                    Ok((PartialPacketNumber::OneByte(value), n))
                },
                Err(e) => Err(e),
            },
            PacketNumberLength::TwoBytes => match u16::read(bytes) {
                Ok((value, n)) => {
                    proof {
                        lemma_be_value_bound(bytes@.take(2));
                    }
                    Ok((PartialPacketNumber::TwoBytes(value), n))
                },
                Err(e) => Err(e),
            },
            PacketNumberLength::FourBytes => match u32::read(bytes) {
                Ok((value, n)) => {
                    proof {
                        lemma_be_value_bound(bytes@.take(4));
                    }
                    Ok((PartialPacketNumber::FourBytes(value), n))
                },
                Err(e) => Err(e),
            },
            PacketNumberLength::SixBytes => {
                if bytes.len() < 6 {
                    return Err(Error::FailedToReadBytes);
                }
                proof {
                    lemma_be_value_bound(bytes@.take(6));
                }
                Ok((PartialPacketNumber::SixBytes(ByteOrderPrimitives::BigEndian.read_u48(bytes)), 6))
            },
        }
    }

    /// Appends the bytes of this partial packet number.
    pub fn write(&self, out: &mut Vec<u8>)
        ensures
            final(out)@ == old(out)@ + spec_write_legacy_partial(self@),
    {
        let ghost start = out@;
        proof {
            lemma_pow256_values();
        }
        match self {
            PartialPacketNumber::OneByte(value) => {
                let _ = value.write(out);
                proof {
                    assert(be_bytes(*value as nat / 256, 0) == Seq::<u8>::empty());
                    assert((*value as nat % 256) as u8 == *value);
                    assert(be_bytes(*value as nat, 1) =~= seq![*value]);
                }
            },
            PartialPacketNumber::TwoBytes(value) => {
                let _ = value.write(out);
            },
            PartialPacketNumber::FourBytes(value) => {
                let _ = value.write(out);
            },
            PartialPacketNumber::SixBytes(value) => {
                let mut bytes = ByteOrderPrimitives::BigEndian.write_u48(*value);
                out.append(&mut bytes);
            },
        }
    }
}

impl From<PartialPacketNumber> for u64 {
    fn from(value: PartialPacketNumber) -> (r: u64)
        ensures
            r < 0x1_0000_0000_0000,
    {
        match value {
            PartialPacketNumber::OneByte(value) => value as u64,
            PartialPacketNumber::TwoBytes(value) => value as u64,
            PartialPacketNumber::FourBytes(value) => value as u64,
            PartialPacketNumber::SixBytes(value) => value.into_u64(),
        }
    }
}

impl FromSpecImpl<PartialPacketNumber> for u64 {
    open spec fn obeys_from_spec() -> bool {
        true
    }

    open spec fn from_spec(v: PartialPacketNumber) -> u64 {
        spec_partial_value(v)
    }
}

} // verus!
