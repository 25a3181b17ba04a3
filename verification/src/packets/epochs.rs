use vstd::prelude::*;
use smallvec::SmallVec;

verus! {

/// The (at most three) epochs around a packet number, kept in a `SmallVec` with room for three.
#[verifier::external_body]
pub struct Epochs {
    inner: SmallVec<[u64; 3]>,
}

/// The values an `Epochs` holds, in order.
pub uninterp spec fn epoch_values(epochs: Epochs) -> Seq<u64>;

impl View for Epochs {
    type V = Seq<u64>;

    open spec fn view(&self) -> Seq<u64> {
        epoch_values(*self)
    }
}

/// An empty `SmallVec` (`SmallVec::new`).
#[verifier::external_body]
pub(crate) fn epochs_new() -> (r: Epochs)
    ensures
        epoch_values(r) == Seq::<u64>::empty(),
{
    Epochs { inner: SmallVec::new() }
}

/// Appends a value (`SmallVec::push`).
#[verifier::external_body]
pub(crate) fn epochs_push(epochs: &mut Epochs, value: u64)
    ensures
        epoch_values(*final(epochs)) == epoch_values(*old(epochs)).push(value),
{
    epochs.inner.push(value)
}

/// The number of values held (`SmallVec::len`).
#[verifier::external_body]
pub(crate) fn epochs_len(epochs: &Epochs) -> (r: usize)
    ensures
        r == epoch_values(*epochs).len(),
{
    epochs.inner.len()
}

/// The value at `index` (indexing a `SmallVec`, which panics out of bounds).
#[verifier::external_body]
pub(crate) fn epochs_get(epochs: &Epochs, index: usize) -> (r: u64)
    requires
        index < epoch_values(*epochs).len(),
    ensures
        r == epoch_values(*epochs)[index as int],
{
    epochs.inner[index]
}

impl Epochs {
    /// The number of epochs.
    pub fn len(&self) -> (r: usize)
        ensures
            r == self@.len(),
    {
        epochs_len(self)
    }

    /// The epochs in order, in a new vector.
    pub fn to_vec(&self) -> (r: Vec<u64>)
        ensures
            r@ == self@,
    {
        let mut out: Vec<u64> = Vec::new();
        let len = epochs_len(self);
        let mut i: usize = 0;
        while i < len
            invariant
                len == self@.len(),
                i <= len,
                out@ == self@.take(i as int),
            decreases len - i,
        {
            out.push(epochs_get(self, i));
            proof {
                assert(self@.take(i + 1) =~= self@.take(i as int).push(self@[i as int]));
            }
            i = i + 1;
        }
        proof {
            assert(self@.take(len as int) =~= self@);
        }
        out
    }
}

} // verus!
