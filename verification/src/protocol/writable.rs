use vstd::prelude::*;
use crate::errors::Error;
use vstd::utf8::encode_utf8;
use vstd::string::StringSliceAdditionalSpecFns;
use crate::primitives::byte_order_primitives::{
    be_bytes, be_write_uint, be_write_uint128, lemma_pow256_values,
};

verus! {

/// The outcome of an exec write compared with the outcome its specification gives: on success
/// exactly the specified bytes are appended; on failure the error is the specified one and what
/// was there before stays at the front.
pub open spec fn write_matches(
    spec: Result<Seq<u8>, Error>,
    before: Seq<u8>,
    after: Seq<u8>,
    res: Result<(), Error>,
) -> bool {
    match spec {
        Ok(bytes) => res is Ok && after == before + bytes,
        Err(e) => res == Err::<(), Error>(e) && before.is_prefix_of(after),
    }
}

/// A value that can be written as bytes.
pub trait Writable: View + Sized {
    /// The bytes that a value is written as, or the error that writing it gives.
    spec fn spec_write(value: Self::V) -> Result<Seq<u8>, Error>;

    /// The values that can be written without panicking.
    spec fn write_requires(value: Self::V) -> bool;

    /// Appends the bytes of `self` to `out`.
    fn write(&self, out: &mut Vec<u8>) -> (res: Result<(), Error>)
        requires
            Self::write_requires(self@),
        ensures
            write_matches(Self::spec_write(self@), old(out)@, final(out)@, res),
    ;

    /// The bytes of `self` in a new vector.
    fn bytes_vec(&self) -> (res: Result<Vec<u8>, Error>)
        requires
            Self::write_requires(self@),
        ensures
            match Self::spec_write(self@) {
                Ok(bytes) => res matches Ok(v) && v@ == bytes,
                Err(e) => res == Err::<Vec<u8>, Error>(e),
            },
    {
        let mut out = Vec::new();
        match self.write(&mut out) {
            Ok(()) => {
                proof {
                    assert(out@ =~= Seq::<u8>::empty() + out@);
                }
                Ok(out)
            },
            Err(e) => Err(e),
        }
    }
}

/// The bytes of `value` written after those of the values of `values` (or the first error).
pub open spec fn spec_write_all<E: Writable>(values: Seq<E>) -> Result<Seq<u8>, Error>
    decreases values.len(),
{
    if values.len() == 0 {
        Ok(Seq::empty())
    } else {
        match spec_write_all::<E>(values.drop_last()) {
            Ok(front) => match E::spec_write(values.last()@) {
                Ok(back) => Ok(front + back),
                Err(e) => Err(e),
            },
            Err(e) => Err(e),
        }
    }
}

/// Writes each of `values` in order.
pub fn write_all<E: Writable>(values: &[E], out: &mut Vec<u8>) -> (res: Result<(), Error>)
    requires
        forall|i: int| 0 <= i < values@.len() ==> E::write_requires(#[trigger] values@[i]@),
    ensures
        write_matches(spec_write_all::<E>(values@), old(out)@, final(out)@, res),
{
    let ghost start = out@;
    let mut i: usize = 0;
    while i < values.len()
        invariant
            i <= values@.len(),
            start == old(out)@,
            forall|j: int| 0 <= j < values@.len() ==> E::write_requires(#[trigger] values@[j]@),
            spec_write_all::<E>(values@.take(i as int)) matches Ok(front) && out@ == start + front,
        decreases values.len() - i,
    {
        let ghost before = out@;
        let ghost front = spec_write_all::<E>(values@.take(i as int))->Ok_0;
        let res = values[i].write(out);
        proof {
            assert(values@.take(i + 1).drop_last() =~= values@.take(i as int));
            assert(values@.take(i + 1).last() == values@[i as int]);
        }
        match res {
            Ok(()) => {
                proof {
                    assert(out@ =~= start + (front + E::spec_write(values@[i as int]@)->Ok_0));
                }
            },
            Err(e) => {
                proof {
                    lemma_write_all_error_propagates::<E>(values@, (i + 1) as nat, e);
                    assert(values@.take(values@.len() as int) =~= values@);
                    assert(start.is_prefix_of(out@)) by {
                        assert(before.is_prefix_of(out@));
                        assert forall|k: int| 0 <= k < start.len() implies out@[k] == start[k] by {
                            assert(before[k] == start[k]);
                            assert(out@.subrange(0, before.len() as int)[k] == out@[k]);
                        }
                        assert(start =~= out@.subrange(0, start.len() as int));
                    }
                }
                return Err(e);
            },
        }
        i = i + 1;
    }
    proof {
        assert(values@.take(values@.len() as int) =~= values@);
    }
    Ok(())
}

/// Once writing a prefix fails, writing anything longer fails with the same error.
pub proof fn lemma_write_all_error_propagates<E: Writable>(values: Seq<E>, k: nat, e: Error)
    requires
        k <= values.len(),
        spec_write_all::<E>(values.take(k as int)) == Err::<Seq<u8>, Error>(e),
    ensures
        spec_write_all::<E>(values) == Err::<Seq<u8>, Error>(e),
    decreases values.len() - k,
{
    if k == values.len() {
        assert(values.take(k as int) =~= values);
    } else {
        assert(values.take((k + 1) as int).drop_last() =~= values.take(k as int));
        lemma_write_all_error_propagates::<E>(values, k + 1, e);
    }
}

impl Writable for u8 {
    open spec fn spec_write(value: u8) -> Result<Seq<u8>, Error> {
        Ok(seq![value])
    }

    open spec fn write_requires(value: u8) -> bool {
        true
    }

    fn write(&self, out: &mut Vec<u8>) -> (res: Result<(), Error>) {
        out.push(*self);
        proof {
            assert(out@ =~= old(out)@ + seq![*self]);
        }
        Ok(())
    }
}

impl Writable for u16 {
    open spec fn spec_write(value: u16) -> Result<Seq<u8>, Error> {
        Ok(be_bytes(value as nat, 2))
    }

    open spec fn write_requires(value: u16) -> bool {
        true
    }

    fn write(&self, out: &mut Vec<u8>) -> (res: Result<(), Error>) {
        proof {
            lemma_pow256_values();
        }
        let mut bytes = be_write_uint(*self as u64, 2);
        out.append(&mut bytes);
        Ok(())
    }
}

impl Writable for u32 {
    open spec fn spec_write(value: u32) -> Result<Seq<u8>, Error> {
        Ok(be_bytes(value as nat, 4))
    }

    open spec fn write_requires(value: u32) -> bool {
        true
    }

    fn write(&self, out: &mut Vec<u8>) -> (res: Result<(), Error>) {
        proof {
            lemma_pow256_values();
        }
        let mut bytes = be_write_uint(*self as u64, 4);
        out.append(&mut bytes);
        Ok(())
    }
}

impl Writable for u64 {
    open spec fn spec_write(value: u64) -> Result<Seq<u8>, Error> {
        Ok(be_bytes(value as nat, 8))
    }

    open spec fn write_requires(value: u64) -> bool {
        true
    }

    fn write(&self, out: &mut Vec<u8>) -> (res: Result<(), Error>) {
        proof {
            lemma_pow256_values();
        }
        let mut bytes = be_write_uint(*self, 8);
        out.append(&mut bytes);
        Ok(())
    }
}

impl Writable for u128 {
    open spec fn spec_write(value: u128) -> Result<Seq<u8>, Error> {
        Ok(be_bytes(value as nat, 16))
    }

    open spec fn write_requires(value: u128) -> bool {
        true
    }

    fn write(&self, out: &mut Vec<u8>) -> (res: Result<(), Error>) {
        proof {
            lemma_pow256_values();
        }
        let mut bytes = be_write_uint128(*self, 16);
        out.append(&mut bytes);
        Ok(())
    }
}

/// A vector is written as its elements one after another.
impl<E: Writable> Writable for Vec<E> {
    open spec fn spec_write(value: Seq<E>) -> Result<Seq<u8>, Error> {
        spec_write_all::<E>(value)
    }

    open spec fn write_requires(value: Seq<E>) -> bool {
        forall|i: int| 0 <= i < value.len() ==> E::write_requires(#[trigger] value[i]@)
    }

    fn write(&self, out: &mut Vec<u8>) -> (res: Result<(), Error>) {
        write_all(self.as_slice(), out)
    }
}

/// An absent value is written as nothing.
impl<E: Writable> Writable for Option<E> {
    open spec fn spec_write(value: Option<E>) -> Result<Seq<u8>, Error> {
        match value {
            Some(e) => E::spec_write(e@),
            None => Ok(Seq::empty()),
        }
    }

    open spec fn write_requires(value: Option<E>) -> bool {
        match value {
            Some(e) => E::write_requires(e@),
            None => true,
        }
    }

    fn write(&self, out: &mut Vec<u8>) -> (res: Result<(), Error>) {
        match self {
            Some(value) => value.write(out),
            None => {
                proof {
                    assert(out@ =~= old(out)@ + Seq::<u8>::empty());
                }
                Ok(())
            },
        }
    }
}

/// A string is written as its UTF-8 encoding.
impl Writable for String {
    open spec fn spec_write(value: Seq<char>) -> Result<Seq<u8>, Error> {
        Ok(encode_utf8(value))
    }

    open spec fn write_requires(value: Seq<char>) -> bool {
        true
    }

    fn write(&self, out: &mut Vec<u8>) -> (res: Result<(), Error>) {
        let string = self.as_str();
        let bytes = string.as_bytes();
        assert(bytes@ == encode_utf8(self@));
        out.extend_from_slice(bytes);
        assert(out@ =~= old(out)@ + encode_utf8(self@));
        Ok(())
    }
}

} // verus!
