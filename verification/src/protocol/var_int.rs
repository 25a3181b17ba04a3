use vstd::prelude::*;
use vstd::slice::slice_subrange;
use vstd::std_specs::convert::FromSpecImpl;
use crate::errors::Error;
use crate::primitives::byte_order_primitives::{
    be_bytes, be_read_uint, be_value, lemma_be_bytes_value, lemma_be_value_append,
    lemma_be_value_bound, lemma_be_value_first, lemma_pow256_values, pow256, lemma_be_tagged,
    lemma_be_value_single,
};
use crate::protocol::readable::Readable;
use crate::protocol::writable::Writable;

verus! {

/// The largest value a variable-length integer can hold: 2^62 - 1.
pub const MAX_VALUE: u64 = 4611686018427387903;

/// A variable-length integer: the two most significant bits of its first byte give its length
/// (1, 2, 4 or 8 bytes) and the remaining 62, 30, 14 or 6 bits its value.
#[derive(Debug, Clone, Copy, Eq, PartialEq, Ord, PartialOrd, Hash)]
pub struct VarInt(u64);

impl View for VarInt {
    type V = u64;

    closed spec fn view(&self) -> u64 {
        self.0
    }
}

/// The number of bytes a variable-length integer takes up, given its first byte.
pub open spec fn var_int_len(first_byte: u8) -> nat {
    if first_byte < 64 {
        1
    } else if first_byte < 128 {
        2
    } else if first_byte < 192 {
        4
    } else {
        8
    }
}

/// What reading a variable-length integer from the front of `bytes` gives: the big-endian value
/// of its bytes once the two length bits are cleared.
pub open spec fn spec_read_var_int(bytes: Seq<u8>) -> Result<(u64, nat), Error> {
    if bytes.len() == 0 {
        Err(Error::FailedToReadBytes)
    } else {
        let len = var_int_len(bytes[0]);
        if bytes.len() < len {
            Err(Error::FailedToReadBytes)
        } else {
            Ok(
                (
                    be_value(seq![(bytes[0] % 64) as u8] + bytes.subrange(1, len as int)) as u64,
                    len,
                ),
            )
        }
    }
}

/// The length in bytes of the shortest encoding of `value`.
pub open spec fn var_int_encoded_len(value: u64) -> nat {
    if value < 64 {
        1
    } else if value < 16384 {
        2
    } else if value < 1073741824 {
        4
    } else {
        8
    }
}

/// The bytes a variable-length integer is written as: the shortest encoding whose value bits hold
/// it, with the length in the top two bits.
pub open spec fn spec_write_var_int(value: u64) -> Result<Seq<u8>, Error> {
    if value > MAX_VALUE {
        Err(Error::IntegerValueIsTooLargeToBeStoredAsAVarInt(value))
    } else if value < 64 {
        Ok(be_bytes(value as nat, 1))
    } else if value < 16384 {
        Ok(be_bytes((0x4000 + value) as nat, 2))
    } else if value < 1073741824 {
        Ok(be_bytes((0x8000_0000 + value) as nat, 4))
    } else {
        Ok(be_bytes((0xC000_0000_0000_0000 + value) as nat, 8))
    }
}

/// Reading back an encoding of length `len` whose top two bits hold `tag` gives the value.
proof fn lemma_read_tagged(value: nat, tag: nat, len: nat, rest: Seq<u8>)
    requires
        len == 1 || len == 2 || len == 4 || len == 8,
        tag == (if len == 1 { 0nat } else if len == 2 { 1nat } else if len == 4 { 2nat } else { 3nat }),
        value < 64 * pow256((len - 1) as nat),
    ensures
        spec_read_var_int(be_bytes(tag * 64 * pow256((len - 1) as nat) + value, len) + rest)
            == Ok::<(u64, nat), Error>((value as u64, len)),
{
    lemma_pow256_values();
    let p = pow256((len - 1) as nat);
    lemma_be_tagged(value, tag, len);
    let bytes = be_bytes(tag * 64 * p + value, len);
    let whole = bytes + rest;
    assert(whole[0] == bytes[0]);
    assert(value / p < 64) by (nonlinear_arith)
        requires
            value < 64 * p,
            p > 0,
    ;
    assert(var_int_len(whole[0]) == len);
    assert(whole.subrange(1, len as int) =~= bytes.drop_first());
}

/// Writing a variable-length integer and reading it back gives the value and the number of bytes
/// written, whatever follows it.
pub proof fn lemma_var_int_round_trip(value: u64, rest: Seq<u8>)
    requires
        value <= MAX_VALUE,
    ensures
        spec_write_var_int(value) matches Ok(bytes)
            && bytes.len() == var_int_encoded_len(value)
            && spec_read_var_int(bytes + rest) == Ok::<(u64, nat), Error>((value, bytes.len())),
{
    lemma_pow256_values();
    if value < 64 {
        lemma_read_tagged(value as nat, 0, 1, rest);
        assert(0 * 64 * pow256(0) + value == value);
        lemma_be_bytes_value(value as nat, 1);
    } else if value < 16384 {
        lemma_read_tagged(value as nat, 1, 2, rest);
        assert(1 * 64 * pow256(1) + value == 0x4000 + value);
        lemma_be_bytes_value((0x4000 + value) as nat, 2);
    } else if value < 1073741824 {
        lemma_read_tagged(value as nat, 2, 4, rest);
        assert(2 * 64 * pow256(3) + value == 0x8000_0000 + value);
        lemma_be_bytes_value((0x8000_0000 + value) as nat, 4);
    } else {
        lemma_read_tagged(value as nat, 3, 8, rest);
        assert(3 * 64 * pow256(7) + value == 0xC000_0000_0000_0000 + value);
        lemma_be_bytes_value((0xC000_0000_0000_0000 + value) as nat, 8);
    }
}

/// A variable-length integer is written in its shortest encoding, and the top two bits of the
/// first byte give that encoding's length: 0, 1, 2 and 3 stand for 1, 2, 4 and 8 bytes.
pub proof fn lemma_var_int_layout(value: u64)
    requires
        value <= MAX_VALUE,
    ensures
        spec_write_var_int(value) matches Ok(bytes)
            && bytes.len() == var_int_encoded_len(value)
            && bytes[0] / 64 == (if bytes.len() == 1 { 0u8 } else if bytes.len() == 2 { 1u8 } else if bytes.len() == 4 { 2u8 } else { 3u8 })
            && var_int_len(bytes[0]) == bytes.len(),
{
    lemma_pow256_values();
    if value < 64 {
        lemma_layout_tagged(value as nat, 0, 1);
        assert(0 * 64 * pow256(0) + value == value);
    } else if value < 16384 {
        lemma_layout_tagged(value as nat, 1, 2);
        assert(1 * 64 * pow256(1) + value == 0x4000 + value);
    } else if value < 1073741824 {
        lemma_layout_tagged(value as nat, 2, 4);
        assert(2 * 64 * pow256(3) + value == 0x8000_0000 + value);
    } else {
        lemma_layout_tagged(value as nat, 3, 8);
        assert(3 * 64 * pow256(7) + value == 0xC000_0000_0000_0000 + value);
    }
}

/// The first byte of an encoding of length `len` whose top two bits hold `tag` carries the tag.
proof fn lemma_layout_tagged(value: nat, tag: nat, len: nat)
    requires
        len >= 1,
        tag <= 3,
        value < 64 * pow256((len - 1) as nat),
    ensures
        be_bytes(tag * 64 * pow256((len - 1) as nat) + value, len).len() == len,
        be_bytes(tag * 64 * pow256((len - 1) as nat) + value, len)[0] / 64 == tag,
{
    let p = pow256((len - 1) as nat);
    lemma_be_tagged(value, tag, len);
    crate::primitives::byte_order_primitives::lemma_pow256_positive((len - 1) as nat);
    assert(value / p < 64) by (nonlinear_arith)
        requires
            value < 64 * p,
            p > 0,
    ;
}

impl VarInt {
    #[verifier::type_invariant]
    spec fn fits(self) -> bool {
        self.0 <= MAX_VALUE
    }

    /// The value held.
    pub fn into_inner(self) -> (r: u64)
        ensures
            r == self@,
            r <= MAX_VALUE,
    {
        proof {
            use_type_invariant(&self);
        }
        self.0
    }

    pub fn from_u8(value: u8) -> (r: VarInt)
        ensures
            r@ == value,
    {
        VarInt(value as u64)
    }

    pub fn from_u16(value: u16) -> (r: VarInt)
        ensures
            r@ == value,
    {
        VarInt(value as u64)
    }

    pub fn from_u32(value: u32) -> (r: VarInt)
        ensures
            r@ == value,
    {
        VarInt(value as u64)
    }

    /// A variable-length integer holding `value`, or the error that it does not fit in 62 bits.
    pub fn value_from(value: u64) -> (r: Result<VarInt, Error>)
        ensures
            value <= MAX_VALUE ==> (r matches Ok(v) && v@ == value),
            value > MAX_VALUE ==> r == Err::<VarInt, Error>(
                Error::IntegerValueIsTooLargeToBeStoredAsAVarInt(value),
            ),
    {
        if value > MAX_VALUE {
            Err(Error::IntegerValueIsTooLargeToBeStoredAsAVarInt(value))
        } else {
            Ok(VarInt(value))
        }
    }

    /// The sum `self + rhs`, or the error that it does not fit in 62 bits.
    pub fn checked_add(self, rhs: VarInt) -> (r: Result<VarInt, Error>)
        ensures
            self@ + rhs@ <= MAX_VALUE ==> (r matches Ok(v) && v@ == self@ + rhs@),
            self@ + rhs@ > MAX_VALUE ==> r == Err::<VarInt, Error>(
                Error::IntegerValueIsTooLargeToBeStoredAsAVarInt((self@ + rhs@) as u64),
            ),
    {
        let sum = self.into_inner() + rhs.into_inner();
        Self::value_from(sum)
    }
}

impl From<u8> for VarInt {
    fn from(value: u8) -> (r: VarInt) {
        VarInt(value as u64)
    }
}

impl FromSpecImpl<u8> for VarInt {
    open spec fn obeys_from_spec() -> bool {
        true
    }

    closed spec fn from_spec(v: u8) -> VarInt {
        VarInt(v as u64)
    }
}

impl From<u16> for VarInt {
    fn from(value: u16) -> (r: VarInt) {
        VarInt(value as u64)
    }
}

impl FromSpecImpl<u16> for VarInt {
    open spec fn obeys_from_spec() -> bool {
        true
    }

    closed spec fn from_spec(v: u16) -> VarInt {
        VarInt(v as u64)
    }
}

impl From<u32> for VarInt {
    fn from(value: u32) -> (r: VarInt) {
        VarInt(value as u64)
    }
}

impl FromSpecImpl<u32> for VarInt {
    open spec fn obeys_from_spec() -> bool {
        true
    }

    closed spec fn from_spec(v: u32) -> VarInt {
        VarInt(v as u64)
    }
}

impl Readable for VarInt {
    open spec fn spec_read(bytes: Seq<u8>) -> Result<(u64, nat), Error> {
        spec_read_var_int(bytes)
    }

    proof fn lemma_read_bounds(bytes: Seq<u8>) {
    }

    fn read(bytes: &[u8]) -> (res: Result<(VarInt, usize), Error>) {
        if bytes.len() == 0 {
            return Err(Error::FailedToReadBytes);
        }
        let first_byte = bytes[0];
        let length_flag = first_byte & 0b11000000;
        assert(length_flag >> 6u8 == first_byte / 64) by (bit_vector)
            requires
                length_flag == first_byte & 0b11000000u8,
        ;
        let first_byte_value = first_byte & 0b00111111;
        assert(first_byte_value == first_byte % 64) by (bit_vector)
            requires
                first_byte_value == first_byte & 0b00111111u8,
        ;
        let total_length: usize = match length_flag >> 6 {
            0b00 => 1,
            0b01 => 2,
            0b10 => 4,
            _ => 8,
        };
        if bytes.len() < total_length {
            return Err(Error::FailedToReadBytes);
        }
        let remaining_bytes_count = total_length - 1;
        let ghost tail = bytes@.subrange(1, total_length as int);
        proof {
            lemma_pow256_values();
            lemma_be_value_append(seq![first_byte_value], tail);
            lemma_be_value_single(first_byte_value);
            lemma_be_value_bound(tail);
        }
        let all_bytes: u64 = if remaining_bytes_count > 0 {
            let next_slice = slice_subrange(bytes, 1, total_length);
            let next_bytes = be_read_uint(next_slice, remaining_bytes_count);
            assert(next_slice@.take(remaining_bytes_count as int) =~= tail);
            let multiplier: u64 = if remaining_bytes_count == 1 {
                0x100
            } else if remaining_bytes_count == 3 {
                0x100_0000
            } else {
                0x100_0000_0000_0000
            };
            assert(next_bytes < multiplier);
            assert(first_byte_value as nat * multiplier <= 63 * multiplier) by (nonlinear_arith)
                requires
                    first_byte_value < 64,
            ;
            assert(first_byte_value as nat * multiplier + next_bytes <= MAX_VALUE);
            (first_byte_value as u64) * multiplier + next_bytes
        } else {
            assert(tail =~= Seq::<u8>::empty());
            first_byte_value as u64
        };
        Ok((VarInt(all_bytes), total_length))
    }
}

impl Writable for VarInt {
    open spec fn spec_write(value: u64) -> Result<Seq<u8>, Error> {
        spec_write_var_int(value)
    }

    open spec fn write_requires(value: u64) -> bool {
        true
    }

    fn write(&self, out: &mut Vec<u8>) -> (res: Result<(), Error>) {
        let int_value: u64 = self.into_inner();
        proof {
            lemma_pow256_values();
        }
        if int_value <= 63 {
            proof {
                reveal_with_fuel(be_bytes, 2);
                assert(be_bytes(int_value as nat, 1) =~= seq![int_value as u8]);
            }
            (int_value as u8).write(out)
        } else if int_value <= 16383 {
            (0x4000u16 + int_value as u16).write(out)
        } else if int_value <= 1073741823 {
            (0x8000_0000u32 + int_value as u32).write(out)
        } else {
            (0xC000_0000_0000_0000u64 + int_value).write(out)
        }
    }
}

} // verus!
