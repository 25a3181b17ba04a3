use vstd::prelude::*;
use vstd::arithmetic::power2::{pow2, lemma_pow2_adds, lemma_pow2_pos, lemma2_to64, lemma2_to64_rest};
use vstd::bits::{lemma_u64_shr_is_div, lemma_u64_shl_is_mul};
use core::cmp::Ordering;

verus! {

const EXPONENT_BIT_COUNT: u16 = 5;

const MANTISSA_BIT_COUNT: u16 = 11;

const EXPONENT_BIT_MASK: u16 = 0xf800;

const MANTISSA_BIT_MASK: u16 = 0x07ff;

/// The largest integer a `UF16` represents: 0xfff * 2^30.
pub const MAX_INTEGER: u64 = 4396972769280;

/// An unsigned 16-bit floating point number.
/// This vaguely represents the half-precision floating point format but with some changes for the Quic protocol.
/// These changes include:
///  - 11 explicit mantissa bits (instead of 10).
///  - No NaN representation.
///  - No Infinity representation.
#[derive(Clone, Copy, Hash, PartialEq, Eq)]
pub struct UF16(u16);

/// The classes of floating point numbers, of which a `UF16` is only ever zero or normal.
#[derive(Debug, Clone, Copy, PartialEq, Eq)]
pub enum FpCategory {
    Nan,
    Infinite,
    Zero,
    Subnormal,
    Normal,
}

impl View for UF16 {
    type V = u16;

    closed spec fn view(&self) -> u16 {
        self.0
    }
}

/// The exponent field (the top five bits) of a binary representation.
pub open spec fn spec_explicit_exponent(binary: u16) -> nat {
    binary as nat / 2048
}

/// The power of two that the mantissa is multiplied by.
pub open spec fn spec_effective_exponent(binary: u16) -> nat {
    if spec_explicit_exponent(binary) == 0 {
        0
    } else {
        (spec_explicit_exponent(binary) - 1) as nat
    }
}

/// The mantissa field (the low eleven bits) of a binary representation.
pub open spec fn spec_explicit_mantissa(binary: u16) -> nat {
    binary as nat % 2048
}

/// The mantissa with its implicit twelfth bit, which is set whenever the exponent field is not zero.
pub open spec fn spec_effective_mantissa(binary: u16) -> nat {
    if spec_explicit_exponent(binary) != 0 {
        2048 + spec_explicit_mantissa(binary)
    } else {
        spec_explicit_mantissa(binary)
    }
}

/// The number that a binary representation stands for.
pub open spec fn spec_value(binary: u16) -> nat {
    spec_effective_mantissa(binary) * pow2(spec_effective_exponent(binary))
}

/// The binary representation that an integer is approximated by: integers below 4096 are exact,
/// larger ones keep their twelve most significant bits (rounding down) and integers from
/// `MAX_INTEGER` up saturate at the largest `UF16`.
pub open spec fn spec_approx(value: nat) -> nat
    decreases value,
{
    if value < 4096 {
        value
    } else if value >= MAX_INTEGER {
        0xffff
    } else {
        spec_approx(value / 2) + 2048
    }
}

proof fn lemma_approx_halving(v: nat, o: nat)
    requires
        v >= pow2(11 + o),
        v < MAX_INTEGER,
    ensures
        spec_approx(v) == spec_approx(v / pow2(o)) + o * 2048,
        v / pow2(o) >= 2048,
    decreases o,
{
    lemma2_to64();
    if o == 0 {
        assert(v / 1 == v);
    } else {
        lemma_pow2_adds(11, o);
        lemma_pow2_adds(11, (o - 1) as nat);
        lemma_pow2_adds(1, (o - 1) as nat);
        lemma_pow2_pos((o - 1) as nat);
        lemma_pow2_pos(o);
        assert(pow2(11 + o) >= 4096) by {
            lemma_pow2_le(12, 11 + o);
            lemma2_to64();
        }
        assert(v / 2 >= pow2(11 + (o - 1) as nat)) by (nonlinear_arith)
            requires
                v >= pow2(11 + o),
                pow2(11 + o) == pow2(11) * pow2(o),
                pow2(11 + (o - 1) as nat) == pow2(11) * pow2((o - 1) as nat),
                pow2(o) == 2 * pow2((o - 1) as nat),
        ;
        lemma_approx_halving(v / 2, (o - 1) as nat);
        assert(v / 2 / pow2((o - 1) as nat) == v / pow2(o)) by {
            vstd::arithmetic::div_mod::lemma_div_denominator(v as int, 2, pow2((o - 1) as nat) as int);
        }
    }
}

proof fn lemma_pow2_le(e1: nat, e2: nat)
    requires
        e1 <= e2,
    ensures
        pow2(e1) <= pow2(e2),
{
    if e1 < e2 {
        vstd::arithmetic::power2::lemma_pow2_strictly_increases(e1, e2);
    }
}

proof fn lemma_value_bounds(binary: u16)
    ensures
        spec_effective_mantissa(binary) < 4096,
        spec_effective_exponent(binary) <= 30,
        spec_explicit_exponent(binary) < 32,
{
}

/// The number a binary representation stands for lies below 2^(11 + e), for its exponent field
/// e, and, where e is not zero, at or above 2^(10 + e).
proof fn lemma_value_bracket(binary: u16)
    ensures
        spec_value(binary) < pow2(11 + spec_explicit_exponent(binary)),
        spec_explicit_exponent(binary) >= 1 ==> spec_value(binary) >= pow2(10 + spec_explicit_exponent(binary)),
{
    lemma2_to64();
    let e = spec_explicit_exponent(binary);
    let mantissa = spec_effective_mantissa(binary);
    let k = spec_effective_exponent(binary);
    let v = spec_value(binary);
    lemma_pow2_pos(k);
    if e == 0 {
        assert(v == mantissa * pow2(0));
        assert(pow2(11 + e) == 2048);
    } else {
        assert(k == e - 1);
        lemma_pow2_adds(12, k);
        lemma_pow2_adds(11, k);
        assert(11 + e == 12 + k);
        assert(10 + e == 11 + k);
        assert(v < pow2(12) * pow2(k)) by (nonlinear_arith)
            requires
                v == mantissa * pow2(k),
                mantissa < 4096,
                pow2(12) == 4096,
                pow2(k) > 0,
        ;
        assert(v >= pow2(11) * pow2(k)) by (nonlinear_arith)
            requires
                v == mantissa * pow2(k),
                mantissa >= 2048,
                pow2(11) == 2048,
                pow2(k) > 0,
        ;
    }
}

/// A larger binary representation stands for a larger number.
proof fn lemma_value_increases(a: u16, b: u16)
    requires
        a < b,
    ensures
        spec_value(a) < spec_value(b),
{
    let ea = spec_explicit_exponent(a);
    let eb = spec_explicit_exponent(b);
    assert(a == ea * 2048 + spec_explicit_mantissa(a));
    assert(b == eb * 2048 + spec_explicit_mantissa(b));
    if ea < eb {
        lemma_value_bracket(a);
        lemma_value_bracket(b);
        lemma_pow2_le(11 + ea, 10 + eb);
    } else {
        assert(ea == eb);
        let k = spec_effective_exponent(a);
        lemma_pow2_pos(k);
        assert(spec_effective_mantissa(a) < spec_effective_mantissa(b));
        assert(spec_value(a) < spec_value(b)) by (nonlinear_arith)
            requires
                spec_value(a) == spec_effective_mantissa(a) * pow2(k),
                spec_value(b) == spec_effective_mantissa(b) * pow2(k),
                spec_effective_mantissa(a) < spec_effective_mantissa(b),
                pow2(k) > 0,
        ;
    }
}

/// The numbers that binary representations stand for come in the order of the representations,
/// so ordering `UF16`s by their numbers orders them by their binary representations.
pub proof fn lemma_value_order(a: u16, b: u16)
    ensures
        (spec_value(a) < spec_value(b)) == (a < b),
        (spec_value(a) == spec_value(b)) == (a == b),
{
    if a < b {
        lemma_value_increases(a, b);
    } else if b < a {
        lemma_value_increases(b, a);
    }
}

/// Below 4096 a binary representation stands for its own integer, and 4096 for 4096.
proof fn lemma_value_small(binary: u16)
    requires
        binary <= 4096,
    ensures
        spec_value(binary) == binary,
{
    lemma2_to64();
    if binary == 4096 {
        assert(spec_explicit_exponent(binary) == 2 && spec_explicit_mantissa(binary) == 0);
        assert(spec_effective_exponent(binary) == 1 && spec_effective_mantissa(binary) == 2048);
        assert(spec_value(binary) == 2048 * pow2(1));
    } else if binary >= 2048 {
        assert(spec_explicit_exponent(binary) == 1);
        assert(spec_effective_exponent(binary) == 0);
        assert(spec_effective_mantissa(binary) == 2048 + (binary - 2048));
        assert(spec_value(binary) == spec_effective_mantissa(binary) * pow2(0));
    } else {
        assert(spec_explicit_exponent(binary) == 0);
        assert(spec_effective_mantissa(binary) == binary);
        assert(spec_value(binary) == spec_effective_mantissa(binary) * pow2(0));
    }
}

/// One more in the exponent field doubles the number that a normal representation stands for.
proof fn lemma_value_doubles(binary: u16)
    requires
        2048 <= binary,
        binary + 2048 <= 0xffff,
    ensures
        spec_value((binary + 2048) as u16) == 2 * spec_value(binary),
{
    lemma2_to64();
    let next = (binary + 2048) as u16;
    let k = spec_effective_exponent(binary);
    assert(spec_explicit_exponent(next) == spec_explicit_exponent(binary) + 1);
    assert(spec_explicit_mantissa(next) == spec_explicit_mantissa(binary));
    assert(spec_effective_exponent(next) == k + 1);
    lemma_pow2_adds(k, 1);
    let mantissa = spec_effective_mantissa(binary);
    assert(spec_effective_mantissa(next) == mantissa);
    assert(mantissa * pow2(k + 1) == 2 * (mantissa * pow2(k))) by (nonlinear_arith)
        requires
            pow2(k + 1) == pow2(k) * 2,
    ;
}

/// Below `MAX_INTEGER`, an integer lies between the numbers that its approximation and the next
/// binary representation stand for.
proof fn lemma_approx_between(value: nat)
    requires
        value < MAX_INTEGER,
    ensures
        spec_approx(value) < 0xffff,
        spec_value(spec_approx(value) as u16) <= value,
        value < spec_value((spec_approx(value) + 1) as u16),
        value >= 2048 ==> spec_approx(value) >= 2048,
    decreases value,
{
    lemma2_to64();
    lemma2_to64_rest();
    if value < 4096 {
        lemma_value_small(value as u16);
        lemma_value_small((value + 1) as u16);
    } else {
        let half = value / 2;
        lemma_approx_between(half);
        let r = spec_approx(half);
        assert(r < 0xf7ff) by {
            if r >= 0xf7ff {
                lemma_value_order(0xf7ff, r as u16);
                assert(spec_explicit_exponent(0xf7ff) == 30 && spec_explicit_mantissa(0xf7ff) == 2047);
                assert(pow2(29) == 0x2000_0000);
                assert(spec_value(0xf7ff) == 4095 * 0x2000_0000);
            }
        }
        lemma_value_doubles(r as u16);
        lemma_value_doubles((r + 1) as u16);
    }
}

/// Approximating an integer gives the largest `UF16` whose number is not above it: its number is
/// not above the integer, and every larger binary representation stands for a larger number than
/// the integer.
pub proof fn lemma_approx_is_largest_below(value: nat)
    ensures
        spec_approx(value) <= 0xffff,
        spec_value(spec_approx(value) as u16) <= value,
        forall|binary: u16| #[trigger] spec_value(binary) <= value ==> binary <= spec_approx(value),
{
    lemma2_to64();
    lemma2_to64_rest();
    if value >= MAX_INTEGER {
        assert(spec_explicit_exponent(0xffff) == 31 && spec_explicit_mantissa(0xffff) == 2047);
        assert(pow2(30) == 0x4000_0000);
        assert(spec_value(0xffff) == 4095 * 0x4000_0000);
    } else {
        lemma_approx_between(value);
        let r = spec_approx(value);
        assert forall|binary: u16| #[trigger] spec_value(binary) <= value implies binary <= r by {
            if binary > r {
                lemma_value_order((r + 1) as u16, binary);
            }
        }
    }
}

/// Approximating the number a `UF16` stands for gives that `UF16` back: each binary
/// representation is the approximation of its own value.
pub proof fn lemma_approx_of_value(binary: u16)
    ensures
        spec_approx(spec_value(binary)) == binary,
{
    lemma2_to64();
    lemma2_to64_rest();
    let e = spec_explicit_exponent(binary);
    let m = spec_explicit_mantissa(binary);
    let v = spec_value(binary);
    assert(binary == e * 2048 + m);
    if e > 0 {
        let o = (e - 1) as nat;
        let mantissa = 2048 + m;
        assert(v == mantissa * pow2(o));
        lemma_pow2_pos(o);
        assert(o <= 30);
        assert(pow2(o) <= pow2(30)) by {
            lemma_pow2_le(o, 30);
        }
        if binary == 0xffff {
            assert(e == 31 && m == 2047);
            assert(pow2(30) == 0x4000_0000);
            assert(mantissa == 4095 && o == 30);
            assert(v == 4095 * 0x4000_0000);
        } else {
            assert(v < MAX_INTEGER) by {
                if e < 31 {
                    assert(pow2(o) <= pow2(29)) by {
                        lemma_pow2_le(o, 29);
                    }
                    assert(mantissa * pow2(o) <= 4095 * pow2(29)) by (nonlinear_arith)
                        requires
                            mantissa <= 4095,
                            pow2(o) <= pow2(29),
                    ;
                } else {
                    assert(m < 2047);
                    assert(mantissa * pow2(o) <= 4094 * pow2(30)) by (nonlinear_arith)
                        requires
                            mantissa <= 4094,
                            pow2(o) == pow2(30),
                    ;
                }
            }
            lemma_pow2_adds(11, o);
            assert(v >= pow2(11 + o)) by (nonlinear_arith)
                requires
                    v == mantissa * pow2(o),
                    mantissa >= 2048,
                    pow2(11 + o) == pow2(11) * pow2(o),
                    pow2(11) == 2048,
            ;
            lemma_approx_halving(v, o);
            vstd::arithmetic::div_mod::lemma_div_by_multiple(mantissa as int, pow2(o) as int);
            assert(v / pow2(o) == mantissa);
            assert(spec_approx(mantissa) == mantissa);
            assert(spec_approx(v) == mantissa + o * 2048);
        }
    } else {
        assert(spec_effective_exponent(binary) == 0);
        assert(v == m * pow2(0));
        assert(v == m);
    }
}

impl UF16 {
    /// Creates a new `UF16` from its binary represenation.
    pub fn from_binary(binary: u16) -> (r: UF16)
        ensures
            r@ == binary,
    {
        UF16(binary)
    }

    /// Gets the `UF16` in its binary represenation.
    pub fn to_binary(self) -> (r: u16)
        ensures
            r == self@,
    {
        self.0
    }

    pub fn zero() -> (r: UF16)
        ensures
            r@ == 0,
    {
        UF16(0)
    }

    pub fn one() -> (r: UF16)
        ensures
            r@ == 1,
    {
        UF16(1)
    }

    pub fn min_value() -> (r: UF16)
        ensures
            r@ == 0,
    {
        UF16(0)
    }

    pub fn max_value() -> (r: UF16)
        ensures
            r@ == 0xffff,
    {
        UF16(0xffff)
    }

    /// A `UF16` holding exactly the value of a byte.
    pub fn from_u8(value: u8) -> (r: UF16)
        ensures
            r@ == value,
            spec_value(r@) == value,
    {
        proof {
            lemma2_to64();
            assert(spec_explicit_exponent(value as u16) == 0);
            assert(spec_value(value as u16) == value as nat * 1);
        }
        UF16(value as u16)
    }

    pub fn explicit_exponent(self) -> (r: u8)
        ensures
            r == spec_explicit_exponent(self@),
    {
        let binary = self.0;
        let exponent_bits = (binary & EXPONENT_BIT_MASK) >> MANTISSA_BIT_COUNT;
        assert(exponent_bits == binary / 2048) by (bit_vector)
            requires
                exponent_bits == (binary & 0xf800u16) >> 11u16,
        ;
        exponent_bits as u8
    }

    pub fn effective_exponent(self) -> (r: u8)
        ensures
            r == spec_effective_exponent(self@),
    {
        let explicit_exponent = self.explicit_exponent();
        if explicit_exponent == 0 {
            0
        } else {
            explicit_exponent - 1
        }
    }

    pub fn explicit_mantissa(self) -> (r: u16)
        ensures
            r == spec_explicit_mantissa(self@),
    {
        let binary = self.0;
        let r = binary & MANTISSA_BIT_MASK;
        assert(r == binary % 2048) by (bit_vector)
            requires
                r == binary & 0x07ffu16,
        ;
        r
    }

    pub fn effective_mantissa(self) -> (r: u16)
        ensures
            r == spec_effective_mantissa(self@),
    {
        let explicit_mantissa = self.explicit_mantissa();
        if self.explicit_exponent() != 0 {
            // If there is an explicit exponent then we assume a high-order 12th bit
            let r = 0x800 | explicit_mantissa;
            assert(r == 2048 + explicit_mantissa) by (bit_vector)
                requires
                    r == 0x800u16 | explicit_mantissa,
                    explicit_mantissa < 2048,
            ;
            r
        } else {
            explicit_mantissa
        }
    }

    /// The integer this `UF16` stands for: its effective mantissa times two to the power of its
    /// effective exponent (every `UF16` is an integer).
    pub fn integer_value(self) -> (r: u64)
        ensures
            r == spec_value(self@),
            r <= MAX_INTEGER,
    {
        let mantissa = self.effective_mantissa();
        let exponent = self.effective_exponent();
        proof {
            lemma_value_bounds(self@);
            lemma2_to64();
            lemma2_to64_rest();
            lemma_pow2_le(exponent as nat, 30);
            assert(mantissa as nat * pow2(exponent as nat) <= 4095 * pow2(30)) by (nonlinear_arith)
                requires
                    mantissa < 4096,
                    pow2(exponent as nat) <= pow2(30),
            ;
            lemma_u64_shl_is_mul(mantissa as u64, exponent as u64);
        }
        (mantissa as u64) << (exponent as u64)
    }

    pub fn is_nan(self) -> (r: bool)
        ensures
            r == false,
    {
        matches!(self.classify(), FpCategory::Nan)
    }

    pub fn is_infinite(self) -> (r: bool)
        ensures
            r == false,
    {
        matches!(self.classify(), FpCategory::Infinite)
    }

    pub fn is_finite(self) -> (r: bool)
        ensures
            r == true,
    {
        match self.classify() {
            FpCategory::Infinite | FpCategory::Nan => false,
            _ => true,
        }
    }

    pub fn is_subnormal(self) -> (r: bool)
        ensures
            r == false,
    {
        matches!(self.classify(), FpCategory::Subnormal)
    }

    pub fn is_normal(self) -> (r: bool)
        ensures
            r == (self@ != 0),
    {
        matches!(self.classify(), FpCategory::Normal)
    }

    /// Zero for the zero representation, normal for every other.
    pub fn classify(self) -> (r: FpCategory)
        ensures
            r == (if self@ == 0 { FpCategory::Zero } else { FpCategory::Normal }),
    {
        if self.0 == 0 {
            FpCategory::Zero
        } else {
            FpCategory::Normal
        }
    }

    /// Orders two `UF16`s by the numbers they stand for.
    pub fn partial_cmp(&self, rhs: &Self) -> (r: Option<Ordering>)
        ensures
            r == (if spec_value(self@) < spec_value(rhs@) {
                Some(Ordering::Less)
            } else if spec_value(self@) == spec_value(rhs@) {
                Some(Ordering::Equal)
            } else {
                Some(Ordering::Greater)
            }),
            r == (if self@ < rhs@ {
                Some(Ordering::Less)
            } else if self@ == rhs@ {
                Some(Ordering::Equal)
            } else {
                Some(Ordering::Greater)
            }),
    {
        proof {
            lemma_value_order(self@, rhs@);
        }
        let left = self.integer_value();
        let right = rhs.integer_value();
        if left < right {
            Some(Ordering::Less)
        } else if left == right {
            Some(Ordering::Equal)
        } else {
            Some(Ordering::Greater)
        }
    }

    /// Approximates a `u64`, keeping its twelve most significant bits.
    pub fn approx_from_u64(src: u64) -> (r: UF16)
        ensures
            r@ == spec_approx(src as nat),
    {
        proof {
            lemma2_to64();
            lemma2_to64_rest();
        }
        if src < 4096 {
            UF16(src as u16)
        } else if src >= MAX_INTEGER {
            UF16(0xffff)
        } else {
            let mut value = src;
            let mut exponent = 0u16;
            let mut offset = 0b10000u16;
            while offset > 0
                invariant
                    offset == 16 || offset == 8 || offset == 4 || offset == 2 || offset == 1
                        || offset == 0,
                    4096 <= src < MAX_INTEGER,
                    value >= 2048,
                    value == src as nat / pow2(exponent as nat),
                    offset > 0 ==> value < pow2(11 + 2 * offset as nat),
                    offset == 0 ==> value < 4096,
                    offset == 16 ==> exponent == 0,
                    offset == 8 ==> exponent <= 16,
                    offset == 4 ==> exponent <= 24,
                    offset == 2 ==> exponent <= 28,
                    offset == 1 ==> exponent <= 30,
                    offset == 0 ==> exponent <= 31,
                    spec_approx(src as nat) == spec_approx(value as nat) + exponent * 2048,
                decreases offset,
            {
                proof {
                    lemma2_to64();
                    lemma2_to64_rest();
                    lemma_pow2_le(11 + offset as nat, 43);
                    lemma_u64_shl_is_mul(1, (11 + offset) as u64);
                }
                let threshold: u64 = 1u64 << ((11 + offset) as u64);
                if value >= threshold {
                    let ghost old_value = value;
                    proof {
                        lemma_approx_halving(value as nat, offset as nat);
                        lemma_u64_shr_is_div(value, offset as u64);
                        lemma_pow2_pos(offset as nat);
                        vstd::arithmetic::div_mod::lemma_div_denominator(
                            src as int,
                            pow2(exponent as nat) as int,
                            pow2(offset as nat) as int,
                        );
                        lemma_pow2_adds(exponent as nat, offset as nat);
                        lemma_pow2_adds(11, offset as nat);
                        lemma_pow2_adds(11 + offset as nat, offset as nat);
                        lemma_pow2_pos(11 + offset as nat);
                        assert(value as nat / pow2(offset as nat) < pow2(11 + offset as nat))
                            by (nonlinear_arith)
                            requires
                                value < pow2(11 + 2 * offset as nat),
                                pow2(11 + 2 * offset as nat) == pow2(11 + offset as nat) * pow2(offset as nat),
                                pow2(offset as nat) > 0,
                        ;
                    }
                    exponent = exponent + offset;
                    value = value >> (offset as u64);
                    proof {
                        assert(pow2(11 + offset as nat) == 2 * pow2(10 + offset as nat)) by {
                            lemma_pow2_adds(1, 10 + offset as nat);
                        }
                    }
                }
                let ghost previous_offset = offset;
                offset = offset >> 1u16;
                proof {
                    assert(offset == previous_offset / 2) by (bit_vector)
                        requires
                            offset == previous_offset >> 1u16,
                    ;
                }
            }
            proof {
                assert(spec_approx(value as nat) == value);
                if exponent >= 31 {
                    lemma_pow2_le(31, exponent as nat);
                    vstd::arithmetic::div_mod::lemma_fundamental_div_mod(src as int, pow2(exponent as nat) as int);
                    lemma_pow2_pos(exponent as nat);
                    assert(src as nat >= pow2(exponent as nat) * 2048) by (nonlinear_arith)
                        requires
                            src as nat / pow2(exponent as nat) >= 2048,
                            pow2(exponent as nat) > 0,
                            src as int == pow2(exponent as nat) * (src as nat / pow2(exponent as nat)) + src as nat % pow2(exponent as nat),
                            src as nat % pow2(exponent as nat) >= 0,
                    ;
                    assert(false) by (nonlinear_arith)
                        requires
                            src as nat >= pow2(exponent as nat) * 2048,
                            pow2(exponent as nat) >= pow2(31),
                            pow2(31) == 0x8000_0000,
                            src < MAX_INTEGER,
                    ;
                }
            }
            let shifted_exponent = exponent << MANTISSA_BIT_COUNT;
            assert(shifted_exponent == exponent * 2048) by (bit_vector)
                requires
                    shifted_exponent == exponent << 11u16,
                    exponent <= 30,
            ;
            let inner = (value as u16) + shifted_exponent;
            UF16(inner)
        }
    }

    /// Approximates a `u32`; from 0xc000_0000 up the result saturates at the largest `UF16`.
    pub fn approx_from_u32(src: u32) -> (r: UF16)
        ensures
            r@ == (if src >= 0xc000_0000 { 0xffff } else { spec_approx(src as nat) }),
    {
        if src < 4096 {
            UF16(src as u16)
        } else if src >= 0xc000_0000 {
            UF16(0xffff)
        } else {
            Self::approx_from_u64(src as u64)
        }
    }

    /// Approximates a `u16`; from 4096 up the result saturates at the largest `UF16`.
    pub fn approx_from_u16(src: u16) -> (r: UF16)
        ensures
            r@ == (if src < 4096 { src } else { 0xffff }),
    {
        if src < 4096 {
            UF16(src)
        } else {
            UF16(0xffff)
        }
    }
}

} // verus!
