use vstd::prelude::*;
use vstd::slice::{slice_subrange, slice_to_vec};
use crate::errors::Error;
use crate::primitives::byte_order_primitives::{
    be_bytes, be_value, lemma_be_bytes_len, lemma_be_bytes_value, lemma_be_value_bound, lemma_pow256_values,
};
use crate::protocol::readable::{Readable, collect_from_bytes, spec_collect, views};
use crate::protocol::writable::Writable;
use crate::quic_tag::{
    QuicTag, lemma_tag_round_trip, spec_is_named_code, spec_tag_bytes, spec_tag_code, spec_tag_index, spec_tag_key,
    spec_tag_of_bytes,
};

verus! {

/// The values of a crypto handshake message, each under its tag, kept in the order of their tags.
pub struct QuicTagValueMap {
    entries: Vec<(QuicTag, Vec<u8>)>,
}

/// Whether the entries are in strictly increasing order of their tags.
pub open spec fn spec_sorted(entries: Seq<(QuicTag, Seq<u8>)>) -> bool {
    forall|i: int, j: int| 0 <= i < j < entries.len() ==> spec_tag_key(#[trigger] entries[i].0) < spec_tag_key(#[trigger] entries[j].0)
}

/// The value under `tag`, if any.
pub open spec fn spec_get(entries: Seq<(QuicTag, Seq<u8>)>, tag: QuicTag) -> Option<Seq<u8>> {
    if exists|i: int| 0 <= i < entries.len() && #[trigger] entries[i].0 == tag {
        Some(entries[choose|i: int| 0 <= i < entries.len() && #[trigger] entries[i].0 == tag].1)
    } else {
        None
    }
}

/// The number of entries whose tags come before `tag`.
pub open spec fn spec_position(entries: Seq<(QuicTag, Seq<u8>)>, tag: QuicTag) -> int
    decreases entries.len(),
{
    if entries.len() == 0 {
        0
    } else if spec_tag_key(entries.last().0) < spec_tag_key(tag) {
        entries.len() as int
    } else {
        spec_position(entries.drop_last(), tag)
    }
}

/// The entries with `data` set under `tag`: the value replaced if the tag is there, and otherwise
/// a new entry in its place in the order.
pub open spec fn spec_set(entries: Seq<(QuicTag, Seq<u8>)>, tag: QuicTag, data: Seq<u8>) -> Seq<(QuicTag, Seq<u8>)> {
    let i = spec_position(entries, tag);
    if i < entries.len() && entries[i].0 == tag {
        entries.update(i, (tag, data))
    } else {
        entries.insert(i, (tag, data))
    }
}

impl View for QuicTagValueMap {
    type V = Seq<(QuicTag, Seq<u8>)>;

    closed spec fn view(&self) -> Seq<(QuicTag, Seq<u8>)> {
        self.entries@.map_values(|e: (QuicTag, Vec<u8>)| (e.0, e.1@))
    }
}

/// Tags with the same place in the order are the same tag.
pub proof fn lemma_tag_key_injective(a: QuicTag, b: QuicTag)
    requires
        spec_tag_key(a) == spec_tag_key(b),
    ensures
        a == b,
{
    let ka = match a {
        QuicTag::Custom(bytes) => be_value(bytes@),
        _ => 0,
    };
    let kb = match b {
        QuicTag::Custom(bytes) => be_value(bytes@),
        _ => 0,
    };
    lemma_pow256_values();
    if let QuicTag::Custom(bytes) = a {
        lemma_be_value_bound(bytes@);
    }
    if let QuicTag::Custom(bytes) = b {
        lemma_be_value_bound(bytes@);
    }
    assert(spec_tag_index(a) == spec_tag_index(b)) by (nonlinear_arith)
        requires
            spec_tag_index(a) * 0x1_0000_0000 + ka == spec_tag_index(b) * 0x1_0000_0000 + kb,
            0 <= ka < 0x1_0000_0000,
            0 <= kb < 0x1_0000_0000,
    ;
    if let QuicTag::Custom(x) = a {
        if let QuicTag::Custom(y) = b {
            crate::primitives::byte_order_primitives::lemma_be_value_bytes(x@);
            crate::primitives::byte_order_primitives::lemma_be_value_bytes(y@);
            assert(x@ =~= y@);
            assert(x == y);
        }
    }
}

impl QuicTagValueMap {
    #[verifier::type_invariant]
    spec fn sorted(self) -> bool {
        spec_sorted(self@)
    }

    /// An empty map.
    pub fn new() -> (r: QuicTagValueMap)
        ensures
            r@ == Seq::<(QuicTag, Seq<u8>)>::empty(),
    {
        let r = QuicTagValueMap { entries: Vec::new() };
        proof {
            assert(r@ =~= Seq::<(QuicTag, Seq<u8>)>::empty());
        }
        r
    }

    /// The number of entries.
    pub fn len(&self) -> (r: usize)
        ensures
            r == self@.len(),
    {
        self.entries.len()
    }

    /// The position at which `tag` is or would go.
    fn position(&self, tag: QuicTag) -> (r: usize)
        ensures
            r == spec_position(self@, tag),
            r <= self@.len(),
    {
        let key = tag_key(tag);
        let mut i: usize = self.entries.len();
        proof {
            assert(self@.take(i as int) =~= self@);
        }
        while i > 0
            invariant
                i <= self@.len(),
                key == spec_tag_key(tag),
                spec_position(self@, tag) == spec_position(self@.take(i as int), tag),
            decreases i,
        {
            proof {
                assert(self@.take(i as int).drop_last() =~= self@.take(i - 1));
                assert(self@.take(i as int).last() == self@[i - 1]);
            }
            proof {
                assert(self@[i - 1].0 == self.entries@[i - 1].0);
            }
            if tag_key(self.entries[i - 1].0) < key {
                return i;
            }
            i = i - 1;
        }
        0
    }
}

/// The entries before the position of a tag come before it, and those from it on do not.
pub proof fn lemma_position_bounds(entries: Seq<(QuicTag, Seq<u8>)>, tag: QuicTag)
    requires
        spec_sorted(entries),
    ensures
        0 <= spec_position(entries, tag) <= entries.len(),
        forall|j: int| 0 <= j < spec_position(entries, tag) ==> spec_tag_key(#[trigger] entries[j].0) < spec_tag_key(tag),
        forall|j: int| spec_position(entries, tag) <= j < entries.len() ==> spec_tag_key(#[trigger] entries[j].0) >= spec_tag_key(tag),
    decreases entries.len(),
{
    if entries.len() > 0 {
        let init = entries.drop_last();
        assert(spec_sorted(init)) by {
            assert forall|i: int, j: int| 0 <= i < j < init.len() implies spec_tag_key(#[trigger] init[i].0) < spec_tag_key(#[trigger] init[j].0) by {
                assert(init[i] == entries[i] && init[j] == entries[j]);
            }
        }
        lemma_position_bounds(init, tag);
        if spec_tag_key(entries.last().0) >= spec_tag_key(tag) {
            assert forall|j: int| 0 <= j < spec_position(entries, tag) implies spec_tag_key(#[trigger] entries[j].0) < spec_tag_key(tag) by {
                assert(entries[j] == init[j]);
            }
            assert forall|j: int| spec_position(entries, tag) <= j < entries.len() implies spec_tag_key(#[trigger] entries[j].0) >= spec_tag_key(tag) by {
                if j < entries.len() - 1 {
                    assert(entries[j] == init[j]);
                }
            }
        } else {
            assert forall|j: int| 0 <= j < spec_position(entries, tag) implies spec_tag_key(#[trigger] entries[j].0) < spec_tag_key(tag) by {
                if j < entries.len() - 1 {
                    assert(spec_tag_key(entries[j].0) < spec_tag_key(entries[entries.len() - 1].0));
                }
            }
        }
    }
}

/// In sorted entries, the value under a tag is the one at the tag's position, if the tag is there.
pub proof fn lemma_get_at_position(entries: Seq<(QuicTag, Seq<u8>)>, tag: QuicTag)
    requires
        spec_sorted(entries),
    ensures
        spec_get(entries, tag) == if spec_position(entries, tag) < entries.len()
            && entries[spec_position(entries, tag)].0 == tag {
            Some(entries[spec_position(entries, tag)].1)
        } else {
            None
        },
{
    lemma_position_bounds(entries, tag);
    let p = spec_position(entries, tag);
    if exists|i: int| 0 <= i < entries.len() && #[trigger] entries[i].0 == tag {
        let k = choose|i: int| 0 <= i < entries.len() && #[trigger] entries[i].0 == tag;
        assert(spec_tag_key(entries[k].0) == spec_tag_key(tag));
        if k < p {
        } else if k > p {
            assert(spec_tag_key(entries[p].0) < spec_tag_key(entries[k].0));
        }
        assert(k == p);
    } else if p < entries.len() && entries[p].0 == tag {
        assert(entries[p].0 == tag);
    }
}

impl QuicTagValueMap {
    /// Sets the data under a tag. There should be no need for this to be used publicly, use
    /// `set_value` with a `Writable` type instead.
    fn set_data(&mut self, quic_tag: QuicTag, data: Vec<u8>)
        ensures
            final(self)@ == spec_set(old(self)@, quic_tag, data@),
    {
        proof {
            use_type_invariant(&*self);
            lemma_position_bounds(self@, quic_tag);
        }
        let ghost before = self@;
        let i = self.position(quic_tag);
        let mut entries: Vec<(QuicTag, Vec<u8>)> = Vec::new();
        std::mem::swap(&mut entries, &mut self.entries);
        let ghost data_view = data@;
        let replace = i < entries.len() && tag_key(entries[i].0) == tag_key(quic_tag);
        if replace {
            proof {
                assert(before[i as int].0 == entries@[i as int].0);
                lemma_tag_key_injective(entries@[i as int].0, quic_tag);
            }
            entries.set(i, (quic_tag, data));
        } else {
            proof {
                if i < entries@.len() {
                    assert(before[i as int].0 == entries@[i as int].0);
                }
            }
            entries.insert(i, (quic_tag, data));
        }
        let ghost after = entries@.map_values(|e: (QuicTag, Vec<u8>)| (e.0, e.1@));
        proof {
            let expected = spec_set(before, quic_tag, data_view);
            if replace {
                assert(after =~= before.update(i as int, (quic_tag, data_view)));
            } else {
                assert(after =~= before.insert(i as int, (quic_tag, data_view)));
                if i < before.len() {
                    assert(before[i as int].0 != quic_tag);
                }
            }
            assert(after == expected);
            assert forall|a: int, b: int| 0 <= a < b < after.len() implies spec_tag_key(#[trigger] after[a].0) < spec_tag_key(#[trigger] after[b].0) by {
                if !replace && i < before.len() {
                    if spec_tag_key(before[i as int].0) == spec_tag_key(quic_tag) {
                        lemma_tag_key_injective(before[i as int].0, quic_tag);
                    }
                }
            }
        }
        self.entries = entries;
    }

    /// The data under a tag, if any. There should be no need for this to be used publicly, use
    /// `get_optional_value`/`get_required_value` with a `Readable` type instead.
    fn get_data(&self, quic_tag: QuicTag) -> (r: Option<&[u8]>)
        ensures
            match spec_get(self@, quic_tag) {
                Some(value) => r matches Some(data) && data@ == value,
                None => r is None,
            },
    {
        proof {
            use_type_invariant(self);
            lemma_get_at_position(self@, quic_tag);
        }
        let i = self.position(quic_tag);
        if i < self.entries.len() && tag_key(self.entries[i].0) == tag_key(quic_tag) {
            proof {
                assert(self@[i as int].0 == self.entries@[i as int].0);
                lemma_tag_key_injective(self.entries@[i as int].0, quic_tag);
            }
            Some(self.entries[i].1.as_slice())
        } else {
            proof {
                if i < self@.len() && self@[i as int].0 == quic_tag {
                    assert(self@[i as int].0 == self.entries@[i as int].0);
                }
            }
            None
        }
    }
}

/// Setting data under a tag keeps the entries sorted.
pub proof fn lemma_set_sorted(entries: Seq<(QuicTag, Seq<u8>)>, tag: QuicTag, data: Seq<u8>)
    requires
        spec_sorted(entries),
    ensures
        spec_sorted(spec_set(entries, tag, data)),
{
    lemma_position_bounds(entries, tag);
    let i = spec_position(entries, tag);
    let after = spec_set(entries, tag, data);
    if i < entries.len() && spec_tag_key(entries[i].0) == spec_tag_key(tag) {
        lemma_tag_key_injective(entries[i].0, tag);
    }
    assert forall|a: int, b: int| 0 <= a < b < after.len() implies spec_tag_key(#[trigger] after[a].0) < spec_tag_key(#[trigger] after[b].0) by {
        if i < entries.len() && spec_tag_key(entries[i].0) == spec_tag_key(tag) {
            lemma_tag_key_injective(entries[i].0, tag);
        }
    }
}

/// After data is set under a tag, the tag holds that data and every other tag what it held.
#[verifier::spinoff_prover]
#[verifier::rlimit(50)]
pub proof fn lemma_set_then_get(entries: Seq<(QuicTag, Seq<u8>)>, tag: QuicTag, data: Seq<u8>, other: QuicTag)
    requires
        spec_sorted(entries),
    ensures
        spec_get(spec_set(entries, tag, data), other) == if other == tag {
            Some(data)
        } else {
            spec_get(entries, other)
        },
        spec_set(entries, tag, data).len() == entries.len() + (if spec_get(entries, tag) is Some { 0int } else { 1int }),
{
    lemma_set_sorted(entries, tag, data);
    let after = spec_set(entries, tag, data);
    lemma_get_at_position(after, other);
    lemma_get_at_position(entries, other);
    lemma_get_at_position(entries, tag);
    lemma_position_bounds(entries, tag);
    lemma_position_bounds(entries, other);
    lemma_position_bounds(after, other);
    let i = spec_position(entries, tag);
    let po = spec_position(entries, other);
    let pa = spec_position(after, other);
    if i < entries.len() && spec_tag_key(entries[i].0) == spec_tag_key(tag) {
        lemma_tag_key_injective(entries[i].0, tag);
    }
    if pa < after.len() && spec_tag_key(after[pa].0) == spec_tag_key(other) {
        lemma_tag_key_injective(after[pa].0, other);
    }
    if po < entries.len() && spec_tag_key(entries[po].0) == spec_tag_key(other) {
        lemma_tag_key_injective(entries[po].0, other);
    }
    if other == tag {
        assert(after[i].0 == tag);
        if pa != i {
            if pa < i {
                assert(spec_tag_key(after[pa].0) < spec_tag_key(after[i].0));
            } else {
                assert(spec_tag_key(after[i].0) < spec_tag_key(other));
            }
        }
    } else {
        if spec_get(entries, other) is Some {
            let j = po;
            assert(entries[j].0 == other);
            let k = if j < i || (i < entries.len() && entries[i].0 == tag) { j } else { j + 1 };
            assert(after[k].0 == other);
            assert(spec_get(after, other) is Some) by {
                assert(after[k].0 == other);
            }
        }
        if spec_get(after, other) is Some {
            assert(after[pa].0 == other);
            assert(pa != i || !(after[i].0 == tag));
        }
    }
}

impl QuicTagValueMap {
    /// Sets the bytes `value` is written as under a tag; when writing the value fails, the map is
    /// left as it was and the error is returned.
    pub fn set_value<T: Writable>(&mut self, quic_tag: QuicTag, value: &T) -> (r: Result<(), Error>)
        requires
            T::write_requires(value@),
        ensures
            match T::spec_write(value@) {
                Ok(bytes) => r is Ok && final(self)@ == spec_set(old(self)@, quic_tag, bytes),
                Err(e) => r == Err::<(), Error>(e) && final(self)@ == old(self)@,
            },
    {
        match value.bytes_vec() {
            Ok(bytes) => {
                self.set_data(quic_tag, bytes);
                Ok(())
            },
            Err(e) => Err(e),
        }
    }

    /// The value under a tag, read as a `T`, if there is one; the error that the value is invalid
    /// when it cannot be read.
    pub fn get_optional_value<T: Readable>(&self, quic_tag: QuicTag) -> (r: Result<Option<T>, Error>)
        ensures
            match spec_get(self@, quic_tag) {
                None => r matches Ok(None),
                Some(data) => match T::spec_read(data) {
                    Ok((value, _)) => r matches Ok(Some(v)) && v@ == value,
                    Err(_) => r matches Err(e) && e == Error::InvalidQuicTagValue(quic_tag),
                },
            },
    {
        match self.get_data(quic_tag) {
            Some(data) => match T::from_bytes(data) {
                Ok(value) => Ok(Some(value)),
                Err(_) => Err(Error::InvalidQuicTagValue(quic_tag)),
            },
            None => Ok(None),
        }
    }

    /// The value under a tag, read as a `T`; the error that the tag is missing when there is none,
    /// and that the value is invalid when it cannot be read.
    pub fn get_required_value<T: Readable>(&self, quic_tag: QuicTag) -> (r: Result<T, Error>)
        ensures
            match spec_get(self@, quic_tag) {
                None => r matches Err(e) && e == Error::MissingQuicTag(quic_tag),
                Some(data) => match T::spec_read(data) {
                    Ok((value, _)) => r matches Ok(v) && v@ == value,
                    Err(_) => r matches Err(e) && e == Error::InvalidQuicTagValue(quic_tag),
                },
            },
    {
        match self.get_data(quic_tag) {
            Some(data) => match T::from_bytes(data) {
                Ok(value) => Ok(value),
                Err(_) => Err(Error::InvalidQuicTagValue(quic_tag)),
            },
            None => Err(Error::MissingQuicTag(quic_tag)),
        }
    }

    /// The values under a tag, read one after another as `T`s, or none if the tag is missing; the
    /// error that the value is invalid when they cannot be read.
    pub fn get_optional_values<T: Readable>(&self, quic_tag: QuicTag) -> (r: Result<Vec<T>, Error>)
        ensures
            match spec_get(self@, quic_tag) {
                None => r matches Ok(v) && v@.len() == 0,
                Some(data) => match spec_collect::<T>(data) {
                    Ok(values) => r matches Ok(v) && views(v@) == values,
                    Err(_) => r matches Err(e) && e == Error::InvalidQuicTagValue(quic_tag),
                },
            },
    {
        match self.get_data(quic_tag) {
            Some(data) => match collect_from_bytes::<T>(data) {
                Ok(values) => Ok(values),
                Err(_) => Err(Error::InvalidQuicTagValue(quic_tag)),
            },
            None => Ok(Vec::new()),
        }
    }

    /// The values under a tag, read one after another as `T`s; the error that the tag is missing
    /// when there is none, and that the value is invalid when they cannot be read.
    pub fn get_required_values<T: Readable>(&self, quic_tag: QuicTag) -> (r: Result<Vec<T>, Error>)
        ensures
            match spec_get(self@, quic_tag) {
                None => r matches Err(e) && e == Error::MissingQuicTag(quic_tag),
                Some(data) => match spec_collect::<T>(data) {
                    Ok(values) => r matches Ok(v) && views(v@) == values,
                    Err(_) => r matches Err(e) && e == Error::InvalidQuicTagValue(quic_tag),
                },
            },
    {
        match self.get_data(quic_tag) {
            Some(data) => match collect_from_bytes::<T>(data) {
                Ok(values) => Ok(values),
                Err(_) => Err(Error::InvalidQuicTagValue(quic_tag)),
            },
            None => Err(Error::MissingQuicTag(quic_tag)),
        }
    }
}

impl Default for QuicTagValueMap {
    fn default() -> (r: QuicTagValueMap)
        ensures
            r@ == Seq::<(QuicTag, Seq<u8>)>::empty(),
    {
        QuicTagValueMap::new()
    }
}

/// The number of bytes of data of the entries.
pub open spec fn spec_total(entries: Seq<(QuicTag, Seq<u8>)>) -> nat
    decreases entries.len(),
{
    if entries.len() == 0 {
        0
    } else {
        spec_total(entries.drop_last()) + entries.last().1.len()
    }
}

/// The index a map is written with: for each entry its tag and, in four bytes most significant
/// first, the offset at which its data ends.
pub open spec fn spec_index_bytes(entries: Seq<(QuicTag, Seq<u8>)>) -> Seq<u8>
    decreases entries.len(),
{
    if entries.len() == 0 {
        Seq::empty()
    } else {
        spec_index_bytes(entries.drop_last()) + spec_tag_bytes(entries.last().0) + be_bytes(spec_total(entries), 4)
    }
}

/// The data of the entries one after another.
pub open spec fn spec_data_bytes(entries: Seq<(QuicTag, Seq<u8>)>) -> Seq<u8>
    decreases entries.len(),
{
    if entries.len() == 0 {
        Seq::empty()
    } else {
        spec_data_bytes(entries.drop_last()) + entries.last().1
    }
}

/// The data of the first entries is no more than that of all of them.
proof fn lemma_total_prefix(entries: Seq<(QuicTag, Seq<u8>)>, k: int)
    requires
        0 <= k <= entries.len(),
    ensures
        spec_total(entries.take(k)) <= spec_total(entries),
    decreases entries.len(),
{
    if k < entries.len() {
        lemma_total_prefix(entries.drop_last(), k);
        assert(entries.drop_last().take(k) =~= entries.take(k));
    } else {
        assert(entries.take(k) =~= entries);
    }
}

impl QuicTagValueMap {
    /// Appends the map's bytes: the index, then the data of each entry.
    pub fn write(&self, out: &mut Vec<u8>)
        requires
            spec_total(self@) <= u32::MAX,
        ensures
            final(out)@ == old(out)@ + spec_index_bytes(self@) + spec_data_bytes(self@),
    {
        let ghost start = out@;
        let ghost entries = self@;
        let mut end_offset: u32 = 0;
        let mut i: usize = 0;
        proof {
            lemma_pow256_values();
            assert(entries.take(0) =~= Seq::<(QuicTag, Seq<u8>)>::empty());
            assert(start + spec_index_bytes(entries.take(0)) =~= start);
        }
        while i < self.entries.len()
            invariant
                entries == self@,
                spec_total(entries) <= u32::MAX,
                i <= entries.len(),
                end_offset == spec_total(entries.take(i as int)),
                out@ == start + spec_index_bytes(entries.take(i as int)),
            decreases self.entries.len() - i,
        {
            proof {
                assert(entries.take(i + 1).drop_last() =~= entries.take(i as int));
                assert(entries.take(i + 1).last() == entries[i as int]);
                assert(entries[i as int] == (self.entries@[i as int].0, self.entries@[i as int].1@));
                lemma_total_prefix(entries, i + 1);
            }
            let entry = &self.entries[i];
            entry.0.write(out);
            end_offset = end_offset + entry.1.len() as u32;
            let _ = end_offset.write(out);
            proof {
                assert(out@ =~= start + spec_index_bytes(entries.take(i + 1)));
            }
            i = i + 1;
        }
        let ghost index_end = out@;
        let mut j: usize = 0;
        proof {
            assert(entries.take(entries.len() as int) =~= entries);
            assert(index_end + spec_data_bytes(entries.take(0)) =~= index_end);
        }
        while j < self.entries.len()
            invariant
                entries == self@,
                j <= entries.len(),
                out@ == index_end + spec_data_bytes(entries.take(j as int)),
                index_end == start + spec_index_bytes(entries),
            decreases self.entries.len() - j,
        {
            proof {
                assert(entries.take(j + 1).drop_last() =~= entries.take(j as int));
                assert(entries.take(j + 1).last() == entries[j as int]);
                assert(entries[j as int] == (self.entries@[j as int].0, self.entries@[j as int].1@));
            }
            out.extend_from_slice(self.entries[j].1.as_slice());
            proof {
                assert(out@ =~= index_end + spec_data_bytes(entries.take(j + 1)));
            }
            j = j + 1;
        }
        proof {
            assert(entries.take(entries.len() as int) =~= entries);
        }
    }
}

/// What reading an index of `count` entries from the front of `bytes` gives: for each entry, the
/// tag its four bytes stand for and, in the next four bytes most significant first, the offset at
/// which its data ends.
pub open spec fn spec_read_index(bytes: Seq<u8>, count: nat) -> Result<Seq<(QuicTag, u32)>, Error>
    decreases count,
{
    if count == 0 {
        Ok(Seq::empty())
    } else {
        match spec_read_index(bytes, (count - 1) as nat) {
            Err(e) => Err(e),
            Ok(index) => {
                let at = 8 * (count - 1);
                if bytes.len() < at + 4 {
                    Err(Error::FailedToReadBytes)
                } else if bytes.len() < at + 8 {
                    Err(Error::UnableToReadQuicTagValueMap)
                } else {
                    Ok(
                        index.push(
                            (
                                spec_tag_of_bytes(bytes.subrange(at, at + 4)),
                                be_value(bytes.subrange(at + 4, at + 8)) as u32,
                            ),
                        ),
                    )
                }
            },
        }
    }
}

/// Whether each end offset of the index is at most the one before it (the first at most
/// `previous`), so that the length of each value, the previous offset less its own, can be taken.
pub open spec fn spec_offsets_fit(index: Seq<(QuicTag, u32)>, previous: u32) -> bool
    decreases index.len(),
{
    index.len() == 0 || (index[0].1 <= previous && spec_offsets_fit(index.drop_first(), index[0].1))
}

/// What reading the values for the rest of an index from the front of `bytes` gives, starting
/// from `entries`: each value is as long as the previous end offset less its own (cut short where
/// the bytes run out) and is set under its tag; with the number of bytes read.
pub open spec fn spec_read_values(
    bytes: Seq<u8>,
    index: Seq<(QuicTag, u32)>,
    previous: u32,
    entries: Seq<(QuicTag, Seq<u8>)>,
) -> (Seq<(QuicTag, Seq<u8>)>, nat)
    decreases index.len(),
{
    if index.len() == 0 {
        (entries, 0)
    } else {
        let length = previous - index[0].1;
        let taken = if length <= bytes.len() { length } else { bytes.len() as int };
        let (rest, n) = spec_read_values(
            bytes.subrange(taken, bytes.len() as int),
            index.drop_first(),
            index[0].1,
            spec_set(entries, index[0].0, bytes.take(taken)),
        );
        (rest, (taken + n) as nat)
    }
}

impl QuicTagValueMap {
    /// Reads a map of `count` entries from the front of `bytes`: the index, then the values.
    /// Taking the length of a value subtracts its end offset from the previous one, so they must
    /// not increase; `index_offsets_fit` tells whether they do.
    pub fn read(bytes: &[u8], count: usize) -> (r: Result<(QuicTagValueMap, usize), Error>)
        requires
            spec_read_index(bytes@, count as nat) matches Ok(index) ==> spec_offsets_fit(index, 0),
        ensures
            match spec_read_index(bytes@, count as nat) {
                Err(e) => r matches Err(re) && re == e,
                Ok(index) => r matches Ok((map, n)) && (map@, (n - 8 * count) as nat) == spec_read_values(
                    bytes@.subrange(8 * count, bytes@.len() as int),
                    index,
                    0,
                    Seq::empty(),
                ) && n >= 8 * count,
            },
    {
        let (index, mut position) = match read_index(bytes, count) {
            Ok(read) => read,
            Err(e) => {
                return Err(e);
            },
        };
        proof {
            assert(spec_read_index(bytes@, count as nat) == Ok::<Seq<(QuicTag, u32)>, Error>(index@));
        }
        let mut map = QuicTagValueMap::new();
        let mut previous: u32 = 0;
        let mut i: usize = 0;
        let ghost whole = bytes@.subrange(8 * count, bytes@.len() as int);
        let ghost expected = spec_read_values(whole, index@, 0, Seq::empty());
        proof {
            assert(index@.subrange(0, index@.len() as int) =~= index@);
            assert(bytes@.subrange(position as int, bytes@.len() as int) =~= whole);
        }
        while i < index.len()
            invariant
                8 * count <= position <= bytes@.len(),
                i <= index@.len(),
                whole == bytes@.subrange(8 * count, bytes@.len() as int),
                spec_offsets_fit(index@.subrange(i as int, index@.len() as int), previous),
                expected == spec_read_values(whole, index@, 0, Seq::empty()),
                ({
                    let (m, n) = spec_read_values(
                        bytes@.subrange(position as int, bytes@.len() as int),
                        index@.subrange(i as int, index@.len() as int),
                        previous,
                        map@,
                    );
                    m == expected.0 && position - 8 * count + n == expected.1
                }),
            decreases index.len() - i,
        {
            let (quic_tag, end_offset) = index[i];
            let ghost rest = index@.subrange(i as int, index@.len() as int);
            proof {
                assert(rest[0] == index@[i as int]);
                assert(rest.drop_first() =~= index@.subrange(i + 1, index@.len() as int));
            }
            let length = (previous - end_offset) as usize;
            let available = bytes.len() - position;
            let taken = if length <= available {
                length
            } else {
                available
            };
            let data = slice_to_vec(slice_subrange(bytes, position, position + taken));
            proof {
                let b = bytes@.subrange(position as int, bytes@.len() as int);
                assert(b.take(taken as int) =~= data@);
                assert(b.subrange(taken as int, b.len() as int) =~= bytes@.subrange(position + taken, bytes@.len() as int));
            }
            map.set_data(quic_tag, data);
            position = position + taken;
            previous = end_offset;
            i = i + 1;
        }
        proof {
            assert(index@.subrange(i as int, index@.len() as int) =~= Seq::<(QuicTag, u32)>::empty());
        }
        Ok((map, position))
    }

    /// Whether the end offsets of the index of `count` entries at the front of `bytes` do not
    /// increase, as reading the map needs; true when the index cannot be read.
    pub fn index_offsets_fit(bytes: &[u8], count: usize) -> (r: bool)
        ensures
            r == (spec_read_index(bytes@, count as nat) matches Ok(index) ==> spec_offsets_fit(index, 0)),
    {
        let (index, _) = match read_index(bytes, count) {
            Ok(read) => read,
            Err(_) => {
                return true;
            },
        };
        proof {
            assert(spec_read_index(bytes@, count as nat) == Ok::<Seq<(QuicTag, u32)>, Error>(index@));
        }
        let mut previous: u32 = 0;
        let mut i: usize = 0;
        proof {
            assert(index@.subrange(0, index@.len() as int) =~= index@);
        }
        while i < index.len()
            invariant
                i <= index@.len(),
                spec_read_index(bytes@, count as nat) == Ok::<Seq<(QuicTag, u32)>, Error>(index@),
                spec_offsets_fit(index@, 0) == spec_offsets_fit(index@.subrange(i as int, index@.len() as int), previous),
            decreases index.len() - i,
        {
            let ghost rest = index@.subrange(i as int, index@.len() as int);
            proof {
                assert(rest[0] == index@[i as int]);
                assert(rest.drop_first() =~= index@.subrange(i + 1, index@.len() as int));
            }
            let end_offset = index[i].1;
            if end_offset > previous {
                proof {
                    assert(!spec_offsets_fit(rest, previous));
                }
                return false;
            }
            previous = end_offset;
            i = i + 1;
        }
        proof {
            assert(index@.subrange(i as int, index@.len() as int).len() == 0);
        }
        true
    }
}

/// Reads the index of `count` entries from the front of `bytes`.
fn read_index(bytes: &[u8], count: usize) -> (r: Result<(Vec<(QuicTag, u32)>, usize), Error>)
    ensures
        match spec_read_index(bytes@, count as nat) {
            Ok(index) => r matches Ok((v, n)) && v@ == index && n == 8 * count && n <= bytes@.len(),
            Err(e) => r matches Err(re) && re == e,
        },
{
    let mut index: Vec<(QuicTag, u32)> = Vec::new();
    let mut position: usize = 0;
    let mut k: usize = 0;
    while k < count
        invariant
            k <= count,
            position == 8 * k,
            position <= bytes@.len(),
            spec_read_index(bytes@, k as nat) == Ok::<Seq<(QuicTag, u32)>, Error>(index@),
        decreases count - k,
    {
        let (quic_tag, _) = match QuicTag::read(slice_subrange(bytes, position, bytes.len())) {
            Ok(read) => read,
            Err(e) => {
                proof {
                    lemma_read_index_error(bytes@, (k + 1) as nat, count as nat, e);
                }
                return Err(e);
            },
        };
        let (end_offset, _) = match u32::read(slice_subrange(bytes, position + 4, bytes.len())) {
            Ok(read) => read,
            Err(_) => {
                proof {
                    lemma_read_index_error(bytes@, (k + 1) as nat, count as nat, Error::UnableToReadQuicTagValueMap);
                }
                return Err(Error::UnableToReadQuicTagValueMap);
            },
        };
        proof {
            let b = bytes@.subrange(position as int, bytes@.len() as int);
            assert(b.take(4) =~= bytes@.subrange(position as int, position + 4));
            assert(bytes@.subrange(position + 4, bytes@.len() as int).take(4)
                =~= bytes@.subrange(position + 4, position + 8));
            crate::quic_tag::lemma_tag_code_is_le_value(quic_tag);
            crate::quic_tag::lemma_tag_round_trip(quic_tag);
        }
        index.push((quic_tag, end_offset));
        position = position + 8;
        k = k + 1;
    }
    Ok((index, position))
}

/// Once reading the first entries of an index fails, reading more fails with the same error.
proof fn lemma_read_index_error(bytes: Seq<u8>, k: nat, count: nat, e: Error)
    requires
        k <= count,
        spec_read_index(bytes, k) == Err::<Seq<(QuicTag, u32)>, Error>(e),
    ensures
        spec_read_index(bytes, count) == Err::<Seq<(QuicTag, u32)>, Error>(e),
    decreases count - k,
{
    if k < count {
        lemma_read_index_error(bytes, k + 1, count, e);
    }
}

/// The place of a tag in the order, as `spec_tag_key` gives it.
fn tag_key(tag: QuicTag) -> (r: u64)
    ensures
        r == spec_tag_key(tag),
{
    let index: u64 = match tag {
        QuicTag::ClientHello => 0,
        QuicTag::ServerHello => 1,
        QuicTag::ServerNameIndication => 2,
        QuicTag::SourceAddressToken => 3,
        QuicTag::ProofDemand => 4,
        QuicTag::CommonCertificateSets => 5,
        QuicTag::CachedCertificates => 6,
        QuicTag::Version => 7,
        QuicTag::Fnv1aHash => 8,
        QuicTag::Rejection => 9,
        QuicTag::ServerConfiguration => 10,
        QuicTag::ServerNonce => 11,
        QuicTag::ServerConfigurationTimeToLive => 12,
        QuicTag::CertificateChain => 13,
        QuicTag::ProofOfAuthenticity => 14,
        QuicTag::ServerConfigurationId => 15,
        QuicTag::KeyExchangeAlgorithm => 16,
        QuicTag::Curve25519 => 17,
        QuicTag::P256 => 18,
        QuicTag::AuthenticatedEncryptionAlgorithm => 19,
        QuicTag::AesGcm => 20,
        QuicTag::Salsa20Poly1305 => 21,
        QuicTag::PublicValue => 22,
        QuicTag::Orbit => 23,
        QuicTag::ServerConfigurationExpiry => 24,
        QuicTag::ClientNonce => 25,
        QuicTag::ClientEncryptedTagValues => 26,
        QuicTag::ChannelIdKey => 27,
        QuicTag::ChannelIdSignature => 28,
        QuicTag::X509 => 29,
        QuicTag::Custom(_) => 30,
    };
    let low: u64 = match tag {
        QuicTag::Custom(bytes) => {
            proof {
                lemma_pow256_values();
                lemma_be_value_bound(bytes@);
                reveal_with_fuel(be_value, 5);
            }
            (bytes[0] as u64) * 0x100_0000 + (bytes[1] as u64) * 0x1_0000 + (bytes[2] as u64) * 0x100
                + bytes[3] as u64
        },
        _ => 0,
    };
    index * 0x1_0000_0000 + low
}

/// The index of a written map as it reads back: each tag with the offset at which the data up to
/// and including its own ends.
pub open spec fn spec_index(entries: Seq<(QuicTag, Seq<u8>)>) -> Seq<(QuicTag, u32)>
    decreases entries.len(),
{
    if entries.len() == 0 {
        Seq::empty()
    } else {
        spec_index(entries.drop_last()).push((entries.last().0, spec_total(entries) as u32))
    }
}

proof fn lemma_tag_bytes_len(tag: QuicTag)
    ensures
        spec_tag_bytes(tag).len() == 4,
{
    if let QuicTag::Custom(bytes) = tag {
        assert(bytes@.len() == 4);
    }
}

proof fn lemma_index_bytes_len(entries: Seq<(QuicTag, Seq<u8>)>)
    ensures
        spec_index_bytes(entries).len() == 8 * entries.len(),
    decreases entries.len(),
{
    if entries.len() > 0 {
        lemma_index_bytes_len(entries.drop_last());
        lemma_tag_bytes_len(entries.last().0);
        lemma_be_bytes_len(spec_total(entries), 4);
    }
}

/// The index bytes of the first `k` entries are the first `8 * k` index bytes of all of them.
proof fn lemma_index_bytes_prefix(entries: Seq<(QuicTag, Seq<u8>)>, k: int)
    requires
        0 <= k <= entries.len(),
    ensures
        spec_index_bytes(entries).take(8 * k as int) == spec_index_bytes(entries.take(k)),
    decreases entries.len(),
{
    lemma_index_bytes_len(entries);
    if k == entries.len() {
        assert(entries.take(k) =~= entries);
        assert(spec_index_bytes(entries).take(8 * k as int) =~= spec_index_bytes(entries));
    } else {
        let init = entries.drop_last();
        lemma_index_bytes_prefix(init, k);
        lemma_index_bytes_len(init);
        assert(init.take(k) =~= entries.take(k));
        assert(spec_index_bytes(entries).take(8 * k as int) =~= spec_index_bytes(init).take(8 * k as int));
    }
}

/// The data of the first `k + 1` entries is that of the first `k` and the value of entry `k`.
proof fn lemma_total_step(entries: Seq<(QuicTag, Seq<u8>)>, k: int)
    requires
        0 <= k < entries.len(),
    ensures
        spec_total(entries.take(k + 1)) == spec_total(entries.take(k)) + entries[k].1.len(),
{
    assert(entries.take(k + 1).drop_last() =~= entries.take(k));
}

proof fn lemma_index_entries(entries: Seq<(QuicTag, Seq<u8>)>)
    ensures
        spec_index(entries).len() == entries.len(),
        forall|i: int| 0 <= i < entries.len()
            ==> #[trigger] spec_index(entries)[i] == (entries[i].0, spec_total(entries.take(i + 1)) as u32),
    decreases entries.len(),
{
    if entries.len() > 0 {
        let init = entries.drop_last();
        lemma_index_entries(init);
        assert forall|i: int| 0 <= i < entries.len()
            implies #[trigger] spec_index(entries)[i] == (entries[i].0, spec_total(entries.take(i + 1)) as u32) by {
            if i < init.len() {
                assert(init.take(i + 1) =~= entries.take(i + 1));
            } else {
                assert(entries.take(i + 1) =~= entries);
            }
        }
    }
}

/// Reading `k` index entries of what the index of a map is written as gives the index of its first
/// `k` entries.
proof fn lemma_read_written_index(entries: Seq<(QuicTag, Seq<u8>)>, bytes: Seq<u8>, k: nat)
    requires
        k <= entries.len(),
        8 * entries.len() <= bytes.len(),
        bytes.take(8 * entries.len() as int) == spec_index_bytes(entries),
        spec_total(entries) <= u32::MAX,
        forall|i: int| 0 <= i < entries.len()
            ==> (#[trigger] entries[i]).0 is Custom ==> !spec_is_named_code(spec_tag_code(entries[i].0)),
    ensures
        spec_read_index(bytes, k) == Ok::<Seq<(QuicTag, u32)>, Error>(spec_index(entries.take(k as int))),
    decreases k,
{
    if k == 0 {
        assert(spec_index(entries.take(0)) =~= Seq::<(QuicTag, u32)>::empty());
    } else {
        lemma_read_written_index(entries, bytes, (k - 1) as nat);
        let t = entries.take(k as int);
        let at = 8 * (k - 1);
        assert(t.drop_last() =~= entries.take(k - 1));
        assert(t.last() == entries[k - 1]);
        lemma_index_bytes_len(entries);
        lemma_index_bytes_prefix(entries, k as int);
        lemma_index_bytes_len(entries.take(k - 1));
        lemma_tag_bytes_len(entries[k - 1].0);
        lemma_total_prefix(entries, k as int);
        lemma_pow256_values();
        lemma_be_bytes_value(spec_total(t), 4);
        lemma_tag_round_trip(entries[k - 1].0);
        assert(bytes.take(8 * k as int) =~= spec_index_bytes(t)) by {
            assert(bytes.take(8 * k as int) =~= bytes.take(8 * entries.len() as int).take(8 * k as int));
        }
        let whole = spec_index_bytes(t);
        assert(whole == spec_index_bytes(entries.take(k - 1)) + spec_tag_bytes(entries[k - 1].0) + be_bytes(spec_total(t), 4));
        assert(bytes.subrange(at, at + 4) =~= spec_tag_bytes(entries[k - 1].0)) by {
            assert(bytes.subrange(at, at + 4) =~= whole.subrange(at, at + 4));
        }
        assert(bytes.subrange(at + 4, at + 8) =~= be_bytes(spec_total(t), 4)) by {
            assert(bytes.subrange(at + 4, at + 8) =~= whole.subrange(at + 4, at + 8));
        }
    }
}

/// Whether end offsets fit, entry by entry: each at most the one before it, the first at most
/// `previous`.
proof fn lemma_offsets_fit_pairwise(index: Seq<(QuicTag, u32)>, previous: u32)
    ensures
        spec_offsets_fit(index, previous) <==> forall|i: int| 0 <= i < index.len()
            ==> (#[trigger] index[i]).1 <= (if i == 0 { previous } else { index[i - 1].1 }),
    decreases index.len(),
{
    if index.len() > 0 {
        let rest = index.drop_first();
        lemma_offsets_fit_pairwise(rest, index[0].1);
        if forall|i: int| 0 <= i < index.len() ==> (#[trigger] index[i]).1 <= (if i == 0 { previous } else { index[i - 1].1 }) {
            assert forall|i: int| 0 <= i < rest.len()
                implies (#[trigger] rest[i]).1 <= (if i == 0 { index[0].1 } else { rest[i - 1].1 }) by {
                assert(rest[i] == index[i + 1]);
                assert(index[i + 1].1 <= index[i].1);
            }
        }
        if spec_offsets_fit(index, previous) {
            assert forall|i: int| 0 <= i < index.len()
                implies (#[trigger] index[i]).1 <= (if i == 0 { previous } else { index[i - 1].1 }) by {
                if i > 0 {
                    assert(rest[i - 1] == index[i]);
                }
            }
        }
    }
}

/// Entries whose values are all empty hold no data.
proof fn lemma_total_of_empty_values(entries: Seq<(QuicTag, Seq<u8>)>)
    requires
        forall|i: int| 0 <= i < entries.len() ==> (#[trigger] entries[i]).1.len() == 0,
    ensures
        spec_total(entries) == 0,
    decreases entries.len(),
{
    if entries.len() > 0 {
        let init = entries.drop_last();
        assert forall|i: int| 0 <= i < init.len() implies (#[trigger] init[i]).1.len() == 0 by {
            assert(init[i] == entries[i]);
        }
        lemma_total_of_empty_values(init);
    }
}

/// The end offsets of a written map do not increase, as reading needs, exactly when its values
/// are all empty.
proof fn lemma_written_offsets_fit(entries: Seq<(QuicTag, Seq<u8>)>)
    requires
        spec_total(entries) <= u32::MAX,
    ensures
        spec_offsets_fit(spec_index(entries), 0)
            <==> forall|i: int| 0 <= i < entries.len() ==> (#[trigger] entries[i]).1.len() == 0,
{
    let index = spec_index(entries);
    lemma_index_entries(entries);
    lemma_offsets_fit_pairwise(index, 0);
    assert forall|i: int| 0 <= i < entries.len()
        implies spec_total(#[trigger] entries.take(i + 1)) <= u32::MAX && spec_total(entries.take(i)) <= u32::MAX by {
        lemma_total_prefix(entries, i + 1);
        lemma_total_prefix(entries, i);
    }
    if spec_offsets_fit(index, 0) {
        assert forall|i: int| 0 <= i < entries.len() implies (#[trigger] entries[i]).1.len() == 0 by {
            lemma_total_step(entries, i);
            assert(index[i].1 <= (if i == 0 { 0 } else { index[i - 1].1 }));
            if i == 0 {
                assert(entries.take(0) =~= Seq::<(QuicTag, Seq<u8>)>::empty());
            } else {
                assert(index[i - 1] == (entries[i - 1].0, spec_total(entries.take(i)) as u32));
            }
        }
    }
    if forall|i: int| 0 <= i < entries.len() ==> (#[trigger] entries[i]).1.len() == 0 {
        assert forall|i: int| 0 <= i < index.len()
            implies (#[trigger] index[i]).1 <= (if i == 0 { 0 } else { index[i - 1].1 }) by {
            let t = entries.take(i + 1);
            assert forall|j: int| 0 <= j < t.len() implies (#[trigger] t[j]).1.len() == 0 by {
                assert(t[j] == entries[j]);
            }
            lemma_total_of_empty_values(t);
        }
    }
}

/// Setting entry `k` of sorted entries on their first `k` gives their first `k + 1`.
proof fn lemma_set_appends(entries: Seq<(QuicTag, Seq<u8>)>, k: int)
    requires
        spec_sorted(entries),
        0 <= k < entries.len(),
    ensures
        spec_set(entries.take(k), entries[k].0, entries[k].1) == entries.take(k + 1),
{
    let t = entries.take(k);
    if k > 0 {
        assert(t.last() == entries[k - 1]);
        assert(spec_tag_key(entries[k - 1].0) < spec_tag_key(entries[k].0));
    }
    assert(spec_position(t, entries[k].0) == k);
    assert(spec_set(t, entries[k].0, entries[k].1) =~= entries.take(k + 1));
}

/// Reading the values of a sorted map with all values empty, from entry `k` on and starting from
/// its first `k` entries, gives the whole map and takes no bytes.
proof fn lemma_read_empty_values(entries: Seq<(QuicTag, Seq<u8>)>, k: int, bytes: Seq<u8>)
    requires
        spec_sorted(entries),
        0 <= k <= entries.len(),
        forall|i: int| 0 <= i < entries.len() ==> (#[trigger] entries[i]).1.len() == 0,
    ensures
        spec_read_values(bytes, spec_index(entries).subrange(k, entries.len() as int), 0, entries.take(k))
            == (entries, 0nat),
    decreases entries.len() - k,
{
    lemma_index_entries(entries);
    let index = spec_index(entries).subrange(k, entries.len() as int);
    if k < entries.len() {
        let t = entries.take(k + 1);
        assert forall|j: int| 0 <= j < t.len() implies (#[trigger] t[j]).1.len() == 0 by {
            assert(t[j] == entries[j]);
        }
        lemma_total_of_empty_values(t);
        assert(index[0] == (entries[k].0, 0u32));
        assert(index.drop_first() =~= spec_index(entries).subrange(k + 1, entries.len() as int));
        assert(bytes.take(0) =~= entries[k].1);
        lemma_set_appends(entries, k);
        assert(bytes.subrange(0, bytes.len() as int) =~= bytes);
        lemma_read_empty_values(entries, k + 1, bytes);
    } else {
        assert(entries.take(k) =~= entries);
        assert(index.len() == 0);
    }
}

/// What a map is written as reads back as far as reading allows. Its index always reads back:
/// each tag, with the offset at which the data up to its own ends. Those offsets fit, as reading
/// the values needs, exactly when every value is empty; the values then read back, taking no byte
/// past the index, and so does the whole map. (A tag is taken as read: a custom tag that holds
/// the bytes of a named one reads back as the named one.)
pub proof fn lemma_map_round_trip(entries: Seq<(QuicTag, Seq<u8>)>, rest: Seq<u8>)
    requires
        spec_sorted(entries),
        spec_total(entries) <= u32::MAX,
        forall|i: int| 0 <= i < entries.len()
            ==> (#[trigger] entries[i]).0 is Custom ==> !spec_is_named_code(spec_tag_code(entries[i].0)),
    ensures
        ({
            let bytes = spec_index_bytes(entries) + spec_data_bytes(entries) + rest;
            &&& spec_read_index(bytes, entries.len()) == Ok::<Seq<(QuicTag, u32)>, Error>(spec_index(entries))
            &&& spec_offsets_fit(spec_index(entries), 0)
                <==> forall|i: int| 0 <= i < entries.len() ==> (#[trigger] entries[i]).1.len() == 0
            &&& spec_offsets_fit(spec_index(entries), 0) ==> spec_read_values(
                bytes.subrange(8 * entries.len() as int, bytes.len() as int),
                spec_index(entries),
                0,
                Seq::empty(),
            ) == (entries, 0nat)
        }),
{
    let bytes = spec_index_bytes(entries) + spec_data_bytes(entries) + rest;
    lemma_index_bytes_len(entries);
    assert(bytes.take(8 * entries.len() as int) =~= spec_index_bytes(entries));
    lemma_read_written_index(entries, bytes, entries.len());
    assert(entries.take(entries.len() as int) =~= entries);
    lemma_written_offsets_fit(entries);
    if spec_offsets_fit(spec_index(entries), 0) {
        lemma_index_entries(entries);
        lemma_read_empty_values(entries, 0, bytes.subrange(8 * entries.len() as int, bytes.len() as int));
        assert(spec_index(entries).subrange(0, entries.len() as int) =~= spec_index(entries));
        assert(entries.take(0) =~= Seq::<(QuicTag, Seq<u8>)>::empty());
    }
}

} // verus!
