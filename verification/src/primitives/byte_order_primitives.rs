use vstd::prelude::*;
use byteorder::ByteOrder;
use crate::primitives::u24::U24;
use crate::primitives::u48::U48;
use crate::primitives::uf16::UF16;

verus! {

/// `256` raised to the power `k`: the number of values that `k` bytes can hold.
pub open spec fn pow256(k: nat) -> nat
    decreases k,
{
    if k == 0 {
        1
    } else {
        256 * pow256((k - 1) as nat)
    }
}

/// The unsigned integer that the bytes `s` encode with the most significant byte first.
pub open spec fn be_value(s: Seq<u8>) -> nat
    decreases s.len(),
{
    if s.len() == 0 {
        0
    } else {
        be_value(s.drop_last()) * 256 + s.last() as nat
    }
}

/// The `k` bytes that encode `n` with the most significant byte first (the low `k` bytes of `n`).
pub open spec fn be_bytes(n: nat, k: nat) -> Seq<u8>
    decreases k,
{
    if k == 0 {
        Seq::empty()
    } else {
        be_bytes(n / 256, (k - 1) as nat).push((n % 256) as u8)
    }
}

/// The unsigned integer that the bytes `s` encode with the least significant byte first.
pub open spec fn le_value(s: Seq<u8>) -> nat
    decreases s.len(),
{
    if s.len() == 0 {
        0
    } else {
        s[0] as nat + 256 * le_value(s.drop_first())
    }
}

/// The `k` bytes that encode `n` with the least significant byte first (the low `k` bytes of `n`).
pub open spec fn le_bytes(n: nat, k: nat) -> Seq<u8>
    decreases k,
{
    if k == 0 {
        Seq::empty()
    } else {
        seq![(n % 256) as u8] + le_bytes(n / 256, (k - 1) as nat)
    }
}

pub proof fn lemma_pow256_positive(k: nat)
    ensures
        pow256(k) >= 1,
    decreases k,
{
    if k > 0 {
        lemma_pow256_positive((k - 1) as nat);
    }
}

pub proof fn lemma_pow256_values()
    ensures
        pow256(0) == 1,
        pow256(1) == 0x100,
        pow256(2) == 0x1_0000,
        pow256(3) == 0x100_0000,
        pow256(4) == 0x1_0000_0000,
        pow256(5) == 0x100_0000_0000,
        pow256(6) == 0x1_0000_0000_0000,
        pow256(7) == 0x100_0000_0000_0000,
        pow256(8) == 0x1_0000_0000_0000_0000,
        pow256(16) == 0x1_0000_0000_0000_0000_0000_0000_0000_0000,
{
    reveal_with_fuel(pow256, 17);
}

pub proof fn lemma_be_bytes_len(n: nat, k: nat)
    ensures
        be_bytes(n, k).len() == k,
    decreases k,
{
    if k > 0 {
        lemma_be_bytes_len(n / 256, (k - 1) as nat);
    }
}

pub proof fn lemma_le_bytes_len(n: nat, k: nat)
    ensures
        le_bytes(n, k).len() == k,
    decreases k,
{
    if k > 0 {
        lemma_le_bytes_len(n / 256, (k - 1) as nat);
    }
}

pub proof fn lemma_be_value_bound(s: Seq<u8>)
    ensures
        be_value(s) < pow256(s.len()),
    decreases s.len(),
{
    if s.len() > 0 {
        lemma_be_value_bound(s.drop_last());
    }
}

pub proof fn lemma_le_value_bound(s: Seq<u8>)
    ensures
        le_value(s) < pow256(s.len()),
    decreases s.len(),
{
    if s.len() > 0 {
        lemma_le_value_bound(s.drop_first());
    }
}

/// Encoding a value that fits in `k` bytes and decoding it again gives the value back.
pub proof fn lemma_be_bytes_value(n: nat, k: nat)
    requires
        n < pow256(k),
    ensures
        be_value(be_bytes(n, k)) == n,
        be_bytes(n, k).len() == k,
    decreases k,
{
    lemma_be_bytes_len(n, k);
    if k > 0 {
        assert(n / 256 < pow256((k - 1) as nat)) by (nonlinear_arith)
            requires
                n < 256 * pow256((k - 1) as nat),
        ;
        lemma_be_bytes_value(n / 256, (k - 1) as nat);
        let s = be_bytes(n, k);
        assert(s.drop_last() =~= be_bytes(n / 256, (k - 1) as nat));
        assert(n == (n / 256) * 256 + n % 256) by (nonlinear_arith);
    }
}

/// Encoding a value that fits in `k` bytes and decoding it again gives the value back.
pub proof fn lemma_le_bytes_value(n: nat, k: nat)
    requires
        n < pow256(k),
    ensures
        le_value(le_bytes(n, k)) == n,
        le_bytes(n, k).len() == k,
    decreases k,
{
    lemma_le_bytes_len(n, k);
    if k > 0 {
        assert(n / 256 < pow256((k - 1) as nat)) by (nonlinear_arith)
            requires
                n < 256 * pow256((k - 1) as nat),
        ;
        lemma_le_bytes_value(n / 256, (k - 1) as nat);
        let s = le_bytes(n, k);
        assert(s.drop_first() =~= le_bytes(n / 256, (k - 1) as nat));
        assert(n == (n % 256) + 256 * (n / 256)) by (nonlinear_arith);
    }
}

/// Decoding bytes and encoding the value again in as many bytes gives the bytes back.
pub proof fn lemma_be_value_bytes(s: Seq<u8>)
    ensures
        be_bytes(be_value(s), s.len()) == s,
    decreases s.len(),
{
    if s.len() > 0 {
        let v = be_value(s);
        let p = be_value(s.drop_last());
        assert(v / 256 == p && v % 256 == s.last() as nat) by (nonlinear_arith)
            requires
                v == p * 256 + s.last() as nat,
                s.last() < 256,
        ;
        lemma_be_value_bytes(s.drop_last());
        assert(be_bytes(v, s.len()) =~= s);
    }
}

/// Decoding bytes least significant first and encoding the value again in as many bytes gives
/// the bytes back.
pub proof fn lemma_le_value_bytes(s: Seq<u8>)
    ensures
        le_bytes(le_value(s), s.len()) == s,
    decreases s.len(),
{
    if s.len() > 0 {
        let v = le_value(s);
        let p = le_value(s.drop_first());
        assert(v / 256 == p && v % 256 == s[0] as nat) by (nonlinear_arith)
            requires
                v == s[0] as nat + 256 * p,
                s[0] < 256,
        ;
        lemma_le_value_bytes(s.drop_first());
        assert(le_bytes(v, s.len()) =~= s);
    }
}

/// The two bytes that encode a 16-bit value, most significant first.
pub proof fn lemma_be_bytes_two(n: nat)
    requires
        n < 0x10000,
    ensures
        be_bytes(n, 2) == seq![(n / 256) as u8, (n % 256) as u8],
{
    reveal_with_fuel(be_bytes, 3);
    assert(n / 256 / 256 == 0);
    assert(be_bytes(n, 2) =~= seq![((n / 256) % 256) as u8, (n % 256) as u8]);
}

/// The value of a big-endian encoding, split after its first byte.
pub proof fn lemma_be_value_first(s: Seq<u8>)
    requires
        s.len() >= 1,
    ensures
        be_value(s) == s[0] as nat * pow256((s.len() - 1) as nat) + be_value(s.drop_first()),
    decreases s.len(),
{
    if s.len() == 1 {
        assert(s.drop_last() =~= Seq::<u8>::empty());
        assert(s.drop_first() =~= Seq::<u8>::empty());
        assert(be_value(Seq::<u8>::empty()) == 0);
        assert(pow256(0) == 1);
        assert(s.last() == s[0]);
        assert(be_value(s) == s[0] as nat);
    } else {
        let t = s.drop_last();
        let u = s.drop_first();
        lemma_be_value_first(t);
        assert(t[0] == s[0]);
        assert(u.len() > 0);
        assert(t.drop_first() =~= u.drop_last());
        assert(u.last() == s.last());
        assert(be_value(s) == be_value(t) * 256 + s.last() as nat);
        assert(be_value(u) == be_value(u.drop_last()) * 256 + u.last() as nat);
        let a = s[0] as nat;
        let q = pow256((t.len() - 1) as nat);
        assert(pow256((s.len() - 1) as nat) == 256 * q);
        let x = be_value(t.drop_first());
        let l = s.last() as nat;
        assert(be_value(t) == a * q + x);
        assert(be_value(u) == x * 256 + l);
        assert((a * q + x) * 256 + l == a * (256 * q) + (x * 256 + l)) by (nonlinear_arith);
        assert(be_value(s) == a * (256 * q) + be_value(u));
    }
}

/// The value of a big-endian encoding of the concatenation of two byte strings.
pub proof fn lemma_be_value_append(a: Seq<u8>, b: Seq<u8>)
    ensures
        be_value(a + b) == be_value(a) * pow256(b.len()) + be_value(b),
    decreases b.len(),
{
    if b.len() == 0 {
        assert(a + b =~= a);
        assert(pow256(0) == 1);
        assert(be_value(b) == 0);
    } else {
        lemma_be_value_append(a, b.drop_last());
        assert((a + b).drop_last() =~= a + b.drop_last());
        assert((a + b).last() == b.last());
        let x = be_value(a);
        let p = pow256((b.len() - 1) as nat);
        let y = be_value(b.drop_last());
        let l = b.last() as nat;
        assert(be_value(a + b) == be_value(a + b.drop_last()) * 256 + l);
        assert(be_value(a + b.drop_last()) == x * p + y);
        assert(be_value(b) == y * 256 + l);
        assert(pow256(b.len()) == 256 * p);
        assert((x * p + y) * 256 + l == x * (256 * p) + (y * 256 + l)) by (nonlinear_arith);
    }
}

pub proof fn lemma_be_value_single(x: u8)
    ensures
        be_value(seq![x]) == x,
{
    let s = seq![x];
    assert(s.drop_last() =~= Seq::<u8>::empty());
    assert(be_value(Seq::<u8>::empty()) == 0);
    assert(be_value(s) == be_value(s.drop_last()) * 256 + s.last() as nat);
}

/// The big-endian encoding in `len` bytes of `value` with a two-bit `tag` above it in the top two
/// bits: its first byte is the tag times 64 plus the top six bits of `value`, and clearing the tag
/// bits of the first byte gives `value` back.
pub proof fn lemma_be_tagged(value: nat, tag: nat, len: nat)
    requires
        len >= 1,
        tag <= 3,
        value < 64 * pow256((len - 1) as nat),
    ensures
        ({
            let p = pow256((len - 1) as nat);
            let bytes = be_bytes(tag * 64 * p + value, len);
            &&& bytes.len() == len
            &&& bytes[0] == tag * 64 + value / p
            &&& be_value(seq![(bytes[0] % 64) as u8] + bytes.drop_first()) == value
        }),
{
    let p = pow256((len - 1) as nat);
    lemma_pow256_positive((len - 1) as nat);
    let n = tag * 64 * p + value;
    assert(n < pow256(len)) by (nonlinear_arith)
        requires
            n == tag * 64 * p + value,
            value < 64 * p,
            tag <= 3,
            pow256(len) == 256 * p,
    ;
    lemma_be_bytes_value(n, len);
    let bytes = be_bytes(n, len);
    let tail = bytes.drop_first();
    lemma_be_value_first(bytes);
    lemma_be_value_bound(tail);
    let b0 = bytes[0] as nat;
    let t = be_value(tail);
    assert(b0 == tag * 64 + value / p && t == value % p) by (nonlinear_arith)
        requires
            n == b0 * p + t,
            n == tag * 64 * p + value,
            t < p,
            p > 0,
    {
        vstd::arithmetic::div_mod::lemma_fundamental_div_mod_converse(n as int, p as int, b0 as int, t as int);
        vstd::arithmetic::div_mod::lemma_fundamental_div_mod_converse(
            n as int,
            p as int,
            (tag * 64 + value / p) as int,
            (value % p) as int,
        );
        vstd::arithmetic::div_mod::lemma_fundamental_div_mod(value as int, p as int);
    }
    assert(value / p < 64) by (nonlinear_arith)
        requires
            value < 64 * p,
            p > 0,
    ;
    assert(b0 % 64 == value / p) by {
        vstd::arithmetic::div_mod::lemma_fundamental_div_mod_converse(b0 as int, 64, tag as int, (value / p) as int);
    }
    let first = (b0 % 64) as u8;
    lemma_be_value_append(seq![first], tail);
    lemma_be_value_single(first);
    assert(first as nat * p + value % p == value) by (nonlinear_arith)
        requires
            first as nat == value / p,
            p > 0,
    {
        vstd::arithmetic::div_mod::lemma_fundamental_div_mod(value as int, p as int);
    }
}

/// Reads `nbytes` bytes as an unsigned integer, most significant byte first
/// (`byteorder::BigEndian::read_uint`).
#[verifier::external_body]
pub(crate) fn be_read_uint(buf: &[u8], nbytes: usize) -> (r: u64)
    requires
        1 <= nbytes <= 8,
        nbytes <= buf@.len(),
    ensures
        r == be_value(buf@.take(nbytes as int)),
{
    byteorder::BigEndian::read_uint(buf, nbytes)
}

/// Reads `nbytes` bytes as an unsigned integer, least significant byte first
/// (`byteorder::LittleEndian::read_uint`).
#[verifier::external_body]
pub(crate) fn le_read_uint(buf: &[u8], nbytes: usize) -> (r: u64)
    requires
        1 <= nbytes <= 8,
        nbytes <= buf@.len(),
    ensures
        r == le_value(buf@.take(nbytes as int)),
{
    byteorder::LittleEndian::read_uint(buf, nbytes)
}

/// Reads `nbytes` bytes as an unsigned 128-bit integer, most significant byte first
/// (`byteorder::BigEndian::read_uint128`).
#[verifier::external_body]
pub(crate) fn be_read_uint128(buf: &[u8], nbytes: usize) -> (r: u128)
    requires
        1 <= nbytes <= 16,
        nbytes <= buf@.len(),
    ensures
        r == be_value(buf@.take(nbytes as int)),
{
    byteorder::BigEndian::read_uint128(buf, nbytes)
}

/// Writes the low `nbytes` bytes of `n`, most significant byte first, into a new buffer of
/// `nbytes` bytes (`byteorder::BigEndian::write_uint`, which panics unless `n` fits).
#[verifier::external_body]
pub(crate) fn be_write_uint(n: u64, nbytes: usize) -> (r: Vec<u8>)
    requires
        1 <= nbytes <= 8,
        n < pow256(nbytes as nat),
    ensures
        r@ == be_bytes(n as nat, nbytes as nat),
{
    let mut buf = vec![0u8; nbytes];
    byteorder::BigEndian::write_uint(&mut buf, n, nbytes);
    buf
}

/// Writes the low `nbytes` bytes of `n`, least significant byte first, into a new buffer of
/// `nbytes` bytes (`byteorder::LittleEndian::write_uint`, which panics unless `n` fits).
#[verifier::external_body]
pub(crate) fn le_write_uint(n: u64, nbytes: usize) -> (r: Vec<u8>)
    requires
        1 <= nbytes <= 8,
        n < pow256(nbytes as nat),
    ensures
        r@ == le_bytes(n as nat, nbytes as nat),
{
    let mut buf = vec![0u8; nbytes];
    byteorder::LittleEndian::write_uint(&mut buf, n, nbytes);
    buf
}

/// Writes the low `nbytes` bytes of `n`, most significant byte first, into a new buffer of
/// `nbytes` bytes (`byteorder::BigEndian::write_uint128`, which panics unless `n` fits).
#[verifier::external_body]
pub(crate) fn be_write_uint128(n: u128, nbytes: usize) -> (r: Vec<u8>)
    requires
        1 <= nbytes <= 16,
        n < pow256(nbytes as nat),
    ensures
        r@ == be_bytes(n as nat, nbytes as nat),
{
    let mut buf = vec![0u8; nbytes];
    byteorder::BigEndian::write_uint128(&mut buf, n, nbytes);
    buf
}

/// The order in which the bytes of a multi-byte integer are laid out.
#[derive(Debug, Clone, Copy, PartialEq, Eq)]
pub enum ByteOrderPrimitives {
    /// Most significant byte first (network order).
    BigEndian,
    /// Least significant byte first.
    LittleEndian,
}

impl ByteOrderPrimitives {
    /// The value that the bytes `s` encode in this byte order.
    pub open spec fn spec_value(self, s: Seq<u8>) -> nat {
        match self {
            ByteOrderPrimitives::BigEndian => be_value(s),
            ByteOrderPrimitives::LittleEndian => le_value(s),
        }
    }

    /// The `k` bytes that encode `n` in this byte order.
    pub open spec fn spec_bytes(self, n: nat, k: nat) -> Seq<u8> {
        match self {
            ByteOrderPrimitives::BigEndian => be_bytes(n, k),
            ByteOrderPrimitives::LittleEndian => le_bytes(n, k),
        }
    }

    fn read_uint(self, buf: &[u8], nbytes: usize) -> (r: u64)
        requires
            1 <= nbytes <= 8,
            nbytes <= buf@.len(),
        ensures
            r == self.spec_value(buf@.take(nbytes as int)),
            r < pow256(nbytes as nat),
    {
        proof {
            lemma_be_value_bound(buf@.take(nbytes as int));
            lemma_le_value_bound(buf@.take(nbytes as int));
        }
        match self {
            ByteOrderPrimitives::BigEndian => be_read_uint(buf, nbytes),
            ByteOrderPrimitives::LittleEndian => le_read_uint(buf, nbytes),
        }
    }

    fn write_uint(self, n: u64, nbytes: usize) -> (r: Vec<u8>)
        requires
            1 <= nbytes <= 8,
            n < pow256(nbytes as nat),
        ensures
            r@ == self.spec_bytes(n as nat, nbytes as nat),
            r@.len() == nbytes,
    {
        proof {
            lemma_be_bytes_len(n as nat, nbytes as nat);
            lemma_le_bytes_len(n as nat, nbytes as nat);
        }
        match self {
            ByteOrderPrimitives::BigEndian => be_write_uint(n, nbytes),
            ByteOrderPrimitives::LittleEndian => le_write_uint(n, nbytes),
        }
    }

    /// Reads a 24-bit unsigned integer from the first three bytes of `buf`.
    pub fn read_u24(self, buf: &[u8]) -> (r: U24)
        requires
            buf@.len() >= 3,
        ensures
            r@ == self.spec_value(buf@.take(3)),
    {
        proof {
            lemma_pow256_values();
        }
        let value = self.read_uint(buf, 3);
        U24::from_u32_unchecked(value as u32)
    }

    /// Reads a 48-bit unsigned integer from the first six bytes of `buf`.
    pub fn read_u48(self, buf: &[u8]) -> (r: U48)
        requires
            buf@.len() >= 6,
        ensures
            r@ == self.spec_value(buf@.take(6)),
    {
        proof {
            lemma_pow256_values();
        }
        let value = self.read_uint(buf, 6);
        U48::from_u64_unchecked(value)
    }

    /// Reads a `UF16` from its binary representation in the first two bytes of `buf`.
    pub fn read_uf16(self, buf: &[u8]) -> (r: UF16)
        requires
            buf@.len() >= 2,
        ensures
            r@ == self.spec_value(buf@.take(2)),
    {
        proof {
            lemma_pow256_values();
        }
        let value = self.read_uint(buf, 2);
        UF16::from_binary(value as u16)
    }

    /// The three bytes that encode `n` in this byte order.
    pub fn write_u24(self, n: U24) -> (r: Vec<u8>)
        ensures
            r@ == self.spec_bytes(n@ as nat, 3),
            r@.len() == 3,
            self.spec_value(r@) == n@,
    {
        let value = n.into_u32();
        proof {
            lemma_pow256_values();
            lemma_be_bytes_value(n@ as nat, 3);
            lemma_le_bytes_value(n@ as nat, 3);
        }
        self.write_uint(value as u64, 3)
    }

    /// The six bytes that encode `n` in this byte order.
    pub fn write_u48(self, n: U48) -> (r: Vec<u8>)
        ensures
            r@ == self.spec_bytes(n@ as nat, 6),
            r@.len() == 6,
            self.spec_value(r@) == n@,
    {
        let value = n.into_u64();
        proof {
            lemma_pow256_values();
            lemma_be_bytes_value(n@ as nat, 6);
            lemma_le_bytes_value(n@ as nat, 6);
        }
        self.write_uint(value, 6)
    }

    /// The two bytes that hold the binary representation of `n` in this byte order.
    pub fn write_uf16(self, n: UF16) -> (r: Vec<u8>)
        ensures
            r@ == self.spec_bytes(n@ as nat, 2),
            r@.len() == 2,
            self.spec_value(r@) == n@,
    {
        proof {
            lemma_pow256_values();
            lemma_be_bytes_value(n@ as nat, 2);
            lemma_le_bytes_value(n@ as nat, 2);
        }
        self.write_uint(n.to_binary() as u64, 2)
    }
}

} // verus!
