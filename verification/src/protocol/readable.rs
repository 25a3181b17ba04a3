use vstd::prelude::*;
use vstd::slice::slice_subrange;
use vstd::utf8::{decode_utf8, encode_utf8, encode_utf8_decode_utf8, encode_utf8_valid_utf8, valid_utf8};
use crate::protocol::writable::Writable;
use vstd::string::StringSliceAdditionalSpecFns;
use crate::errors::Error;
use crate::primitives::byte_order_primitives::{
    be_read_uint, be_read_uint128, be_value, lemma_be_value_bound, lemma_pow256_values,
};

verus! {

/// The outcome of an exec read compared with the outcome its specification gives.
pub open spec fn read_matches<T: View>(
    res: Result<(T, usize), Error>,
    spec: Result<(T::V, nat), Error>,
) -> bool {
    match res {
        Ok((value, consumed)) => spec == Ok::<(T::V, nat), Error>((value@, consumed as nat)),
        Err(e) => spec == Err::<(T::V, nat), Error>(e),
    }
}

/// The outcome of reading only the value compared with the outcome its specification gives.
pub open spec fn value_matches<T: View>(
    res: Result<T, Error>,
    spec: Result<(T::V, nat), Error>,
) -> bool {
    match res {
        Ok(value) => spec matches Ok((v, _)) && v == value@,
        Err(e) => spec == Err::<(T::V, nat), Error>(e),
    }
}

/// A value that can be read from the front of a byte string.
pub trait Readable: View + Sized {
    /// What reading from the front of `bytes` gives: the value and the number of bytes it took up,
    /// or the error.
    spec fn spec_read(bytes: Seq<u8>) -> Result<(Self::V, nat), Error>;

    /// A read never takes more bytes than there are, and takes at least one byte of a
    /// non-empty byte string.
    proof fn lemma_read_bounds(bytes: Seq<u8>)
        ensures
            Self::spec_read(bytes) matches Ok((_, n)) ==> n <= bytes.len() && (bytes.len() > 0 ==> n > 0),
    ;

    /// Reads a value from the front of `bytes`, returning it with the number of bytes it took up.
    fn read(bytes: &[u8]) -> (res: Result<(Self, usize), Error>)
        ensures
            read_matches(res, Self::spec_read(bytes@)),
    ;

    /// Reads a value from the front of `bytes`, ignoring any bytes after it.
    fn from_bytes(bytes: &[u8]) -> (res: Result<Self, Error>)
        ensures
            value_matches(res, Self::spec_read(bytes@)),
    {
        match Self::read(bytes) {
            Ok((value, _)) => Ok(value),
            Err(e) => Err(e),
        }
    }
}

/// What reading values one after another until `bytes` are used up gives.
pub open spec fn spec_collect<T: Readable>(bytes: Seq<u8>) -> Result<Seq<T::V>, Error>
    decreases bytes.len(),
{
    if bytes.len() == 0 {
        Ok(Seq::empty())
    } else {
        match T::spec_read(bytes) {
            Err(e) => Err(e),
            Ok((value, n)) => if 0 < n <= bytes.len() {
                match spec_collect::<T>(bytes.subrange(n as int, bytes.len() as int)) {
                    Ok(rest) => Ok(seq![value] + rest),
                    Err(e) => Err(e),
                }
            } else {
                Ok(seq![value])
            },
        }
    }
}

/// The views of the elements of a sequence.
pub open spec fn views<T: View>(s: Seq<T>) -> Seq<T::V> {
    s.map_values(|x: T| x@)
}

/// Reads values one after another until `bytes` are used up.
pub fn collect_from_bytes<T: Readable>(bytes: &[u8]) -> (res: Result<Vec<T>, Error>)
    ensures
        match spec_collect::<T>(bytes@) {
            Ok(values) => res matches Ok(v) && views(v@) == values,
            Err(e) => res == Err::<Vec<T>, Error>(e),
        },
{
    let mut collected: Vec<T> = Vec::new();
    let mut position: usize = 0;
    let ghost whole = bytes@;
    proof {
        assert(whole.subrange(0, whole.len() as int) =~= whole);
        match spec_collect::<T>(whole) {
            Ok(rest) => {
                assert(views(collected@) + rest =~= rest);
            },
            Err(e) => {},
        }
    }
    while position < bytes.len()
        invariant
            whole == bytes@,
            position <= bytes.len(),
            spec_collect::<T>(whole) == match spec_collect::<T>(whole.subrange(position as int, whole.len() as int)) {
                Ok(rest) => Ok::<Seq<T::V>, Error>(views(collected@) + rest),
                Err(e) => Err(e),
            },
        decreases bytes.len() - position,
    {
        let ghost start_position = position;
        let remaining = slice_subrange(bytes, position, bytes.len());
        let ghost rem = remaining@;
        proof {
            T::lemma_read_bounds(rem);
        }
        match T::read(remaining) {
            Ok((value, consumed)) => {
                proof {
                    assert(rem.subrange(consumed as int, rem.len() as int)
                        =~= whole.subrange(position + consumed, whole.len() as int));
                    assert(views(collected@.push(value)) =~= views(collected@) + seq![value@]);
                    assert(rem.len() > 0);
                    assert(spec_collect::<T>(rem) == match spec_collect::<T>(rem.subrange(consumed as int, rem.len() as int)) {
                        Ok(rest) => Ok::<Seq<T::V>, Error>(seq![value@] + rest),
                        Err(e) => Err(e),
                    });
                }
                let ghost old_collected = collected@;
                let ghost v = value@;
                collected.push(value);
                position = position + consumed;
                proof {
                    assert(views(collected@) =~= views(old_collected) + seq![v]);
                    assert(rem =~= whole.subrange(start_position as int, whole.len() as int));
                    
                    match spec_collect::<T>(whole.subrange(position as int, whole.len() as int)) {
                        Ok(rest) => {
                            assert(views(collected@) + rest =~= views(old_collected) + (seq![v] + rest));
                        },
                        Err(e) => {},
                    }
                }
            },
            Err(e) => {
                return Err(e);
            },
        }
    }
    proof {
        assert(whole.subrange(position as int, whole.len() as int) =~= Seq::<u8>::empty());
        assert(views(collected@) + Seq::<T::V>::empty() =~= views(collected@));
    }
    Ok(collected)
}

impl Readable for u8 {
    open spec fn spec_read(bytes: Seq<u8>) -> Result<(u8, nat), Error> {
        if bytes.len() >= 1 {
            Ok((bytes[0], 1))
        } else {
            Err(Error::FailedToReadU8)
        }
    }

    proof fn lemma_read_bounds(bytes: Seq<u8>) {
    }

    fn read(bytes: &[u8]) -> (res: Result<(u8, usize), Error>) {
        if bytes.len() >= 1 {
            Ok((bytes[0], 1))
        } else {
            Err(Error::FailedToReadU8)
        }
    }
}

impl Readable for u16 {
    open spec fn spec_read(bytes: Seq<u8>) -> Result<(u16, nat), Error> {
        if bytes.len() >= 2 {
            Ok((be_value(bytes.take(2)) as u16, 2))
        } else {
            Err(Error::FailedToReadU16)
        }
    }

    proof fn lemma_read_bounds(bytes: Seq<u8>) {
    }

    fn read(bytes: &[u8]) -> (res: Result<(u16, usize), Error>) {
        if bytes.len() >= 2 {
            Ok((be_read_uint(bytes, 2) as u16, 2))
        } else {
            Err(Error::FailedToReadU16)
        }
    }
}

impl Readable for u32 {
    open spec fn spec_read(bytes: Seq<u8>) -> Result<(u32, nat), Error> {
        if bytes.len() >= 4 {
            Ok((be_value(bytes.take(4)) as u32, 4))
        } else {
            Err(Error::FailedToReadU32)
        }
    }

    proof fn lemma_read_bounds(bytes: Seq<u8>) {
    }

    fn read(bytes: &[u8]) -> (res: Result<(u32, usize), Error>) {
        if bytes.len() >= 4 {
            Ok((be_read_uint(bytes, 4) as u32, 4))
        } else {
            Err(Error::FailedToReadU32)
        }
    }
}

impl Readable for u64 {
    open spec fn spec_read(bytes: Seq<u8>) -> Result<(u64, nat), Error> {
        if bytes.len() >= 8 {
            Ok((be_value(bytes.take(8)) as u64, 8))
        } else {
            Err(Error::FailedToReadU64)
        }
    }

    proof fn lemma_read_bounds(bytes: Seq<u8>) {
    }

    fn read(bytes: &[u8]) -> (res: Result<(u64, usize), Error>) {
        if bytes.len() >= 8 {
            Ok((be_read_uint(bytes, 8), 8))
        } else {
            Err(Error::FailedToReadU64)
        }
    }
}

impl Readable for u128 {
    open spec fn spec_read(bytes: Seq<u8>) -> Result<(u128, nat), Error> {
        if bytes.len() >= 16 {
            Ok((be_value(bytes.take(16)) as u128, 16))
        } else {
            Err(Error::FailedToReadU128)
        }
    }

    proof fn lemma_read_bounds(bytes: Seq<u8>) {
    }

    fn read(bytes: &[u8]) -> (res: Result<(u128, usize), Error>) {
        if bytes.len() >= 16 {
            Ok((be_read_uint128(bytes, 16), 16))
        } else {
            Err(Error::FailedToReadU128)
        }
    }
}

/// A byte vector takes up all the bytes there are.
impl Readable for Vec<u8> {
    open spec fn spec_read(bytes: Seq<u8>) -> Result<(Seq<u8>, nat), Error> {
        Ok((bytes, bytes.len()))
    }

    proof fn lemma_read_bounds(bytes: Seq<u8>) {
    }

    fn read(bytes: &[u8]) -> (res: Result<(Vec<u8>, usize), Error>) {
        Ok((vstd::slice::slice_to_vec(bytes), bytes.len()))
    }
}

/// The string slice whose UTF-8 encoding the bytes are (`std::str::from_utf8`), or `None` where
/// they are not valid UTF-8.
#[verifier::external_body]
fn str_from_utf8(bytes: &[u8]) -> (r: Option<&str>)
    ensures
        r is Some <==> valid_utf8(bytes@),
        r matches Some(s) ==> s.spec_bytes() == bytes@,
{
    match std::str::from_utf8(bytes) {
        Ok(s) => Some(s),
        Err(_) => None,
    }
}

/// A string takes up all the bytes there are, which must be valid UTF-8.
impl Readable for String {
    open spec fn spec_read(bytes: Seq<u8>) -> Result<(Seq<char>, nat), Error> {
        if valid_utf8(bytes) {
            Ok((decode_utf8(bytes), bytes.len()))
        } else {
            Err(Error::FailedToReadString)
        }
    }

    proof fn lemma_read_bounds(bytes: Seq<u8>) {
    }

    fn read(bytes: &[u8]) -> (res: Result<(String, usize), Error>) {
        match str_from_utf8(bytes) {
            Some(s) => {
                proof {
                    encode_utf8_decode_utf8(s@);
                }
                Ok((s.to_owned(), bytes.len()))
            },
            None => Err(Error::FailedToReadString),
        }
    }
}

/// A string written and read back gives the string again, taking all the bytes written.
pub proof fn lemma_string_round_trip(value: Seq<char>)
    ensures
        <String as Writable>::spec_write(value) == Ok::<Seq<u8>, Error>(encode_utf8(value)),
        <String as Readable>::spec_read(encode_utf8(value))
            == Ok::<(Seq<char>, nat), Error>((value, encode_utf8(value).len())),
{
    encode_utf8_valid_utf8(value);
    encode_utf8_decode_utf8(value);
}

} // verus!
