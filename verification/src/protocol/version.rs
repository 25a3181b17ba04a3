use vstd::prelude::*;
use crate::errors::Error;
use crate::protocol::readable::{Readable, spec_collect};
use crate::protocol::writable::{Writable, spec_write_all};
use crate::primitives::byte_order_primitives::{be_bytes, be_value, lemma_be_bytes_value, lemma_pow256_values};

verus! {

/// A QUIC version number.
#[derive(Debug, Copy, Clone, Hash, PartialEq, Eq, PartialOrd, Ord)]
pub struct Version(pub u32);

const IETF_DRAFT_MASK: u32 = 0xff000000;

/// The versions this implementation supports, from lowest to highest preference.
pub open spec fn spec_supported_versions() -> Seq<Version> {
    seq![Version(0xff000008)]
}

/// The last of `supported` (the highest preference) that `offered` contains.
pub open spec fn spec_highest_supported(supported: Seq<Version>, offered: Seq<Version>) -> Option<Version>
    decreases supported.len(),
{
    if supported.len() == 0 {
        None
    } else if offered.contains(supported.last()) {
        Some(supported.last())
    } else {
        spec_highest_supported(supported.drop_last(), offered)
    }
}

impl View for Version {
    type V = Version;

    open spec fn view(&self) -> Version {
        *self
    }
}

impl Version {
    /// The version number that marks a version negotiation packet.
    pub fn negotiation() -> (r: Version)
        ensures
            r == Version(0),
    {
        Version(0)
    }

    /// The eighth IETF draft.
    pub fn draft_ietf_08() -> (r: Version)
        ensures
            r == Version(0xff000008),
    {
        Version(0xff000008)
    }

    pub fn is_version_negotation(self) -> (r: bool)
        ensures
            r == (self.0 == 0),
    {
        self.0 == 0
    }

    /// Versions of the form 0x?a?a?a?a are reserved to force version negotiation.
    pub fn is_force_negotiation(self) -> (r: bool)
        ensures
            r == (self.0 & 0x0f0f0f0f == 0x0a0a0a0a),
    {
        (self.0 & 0x0f0f0f0f) == 0x0a0a0a0a
    }

    /// Versions whose upper sixteen bits are zero are reserved for IETF consensus.
    pub fn is_ietf_consensus_reserved(self) -> (r: bool)
        ensures
            r == (self.0 <= 0xffff),
    {
        let ietf_consensus_mask: u32 = 0x0000FFFF;
        let value = self.0;
        let r = (value & ietf_consensus_mask) == value;
        assert(r == (value <= 0xffff)) by (bit_vector)
            requires
                r == ((value & 0x0000FFFFu32) == value),
        ;
        r
    }

    /// Versions whose most significant byte is 0xff are IETF drafts.
    pub fn is_ietf_draft(self) -> (r: bool)
        ensures
            r == (self.0 >= 0xff000000),
    {
        let value = self.0;
        let r = (value & IETF_DRAFT_MASK) == IETF_DRAFT_MASK;
        assert(r == (value >= 0xff000000)) by (bit_vector)
            requires
                r == ((value & 0xff000000u32) == 0xff000000u32),
        ;
        r
    }

    /// The draft number (the low three bytes) of an IETF draft version.
    pub fn ietf_draft_number(self) -> (r: Option<u32>)
        ensures
            self.0 >= 0xff000000 ==> r == Some((self.0 - 0xff000000) as u32),
            self.0 < 0xff000000 ==> r is None,
    {
        if self.is_ietf_draft() {
            Some(self.0 - IETF_DRAFT_MASK)
        } else {
            None
        }
    }

    /// The supported version of highest preference among `other`, if any.
    pub fn find_highest_supported(other: &[Version]) -> (r: Option<Version>)
        ensures
            r == spec_highest_supported(spec_supported_versions(), other@),
    {
        let supported: Vec<Version> = vec![Version::draft_ietf_08()];
        assert(supported@ =~= spec_supported_versions());
        let mut i: usize = supported.len();
        assert(supported@.take(i as int) =~= supported@);
        while i > 0
            invariant
                i <= supported@.len(),
                supported@ == spec_supported_versions(),
                spec_highest_supported(spec_supported_versions(), other@)
                    == spec_highest_supported(supported@.take(i as int), other@),
            decreases i,
        {
            let candidate = supported[i - 1];
            let mut j: usize = 0;
            let mut found = false;
            while j < other.len()
                invariant
                    j <= other@.len(),
                    found == (exists|k: int| 0 <= k < j && other@[k] == candidate),
                decreases other.len() - j,
            {
                if other[j].0 == candidate.0 {
                    found = true;
                }
                j = j + 1;
            }
            let ghost prefix = supported@.take(i as int);
            assert(prefix.last() == candidate);
            assert(prefix.drop_last() =~= supported@.take(i - 1));
            if found {
                assert(other@.contains(candidate));
                return Some(candidate);
            }
            assert(!other@.contains(candidate));
            i = i - 1;
        }
        None
    }
}

impl Readable for Version {
    open spec fn spec_read(bytes: Seq<u8>) -> Result<(Version, nat), Error> {
        match u32::spec_read(bytes) {
            Ok((value, n)) => Ok((Version(value), n)),
            Err(e) => Err(e),
        }
    }

    proof fn lemma_read_bounds(bytes: Seq<u8>) {
    }

    fn read(bytes: &[u8]) -> (res: Result<(Version, usize), Error>) {
        match u32::read(bytes) {
            Ok((value, n)) => Ok((Version(value), n)),
            Err(e) => Err(e),
        }
    }
}

impl Writable for Version {
    open spec fn spec_write(value: Version) -> Result<Seq<u8>, Error> {
        u32::spec_write(value.0)
    }

    open spec fn write_requires(value: Version) -> bool {
        true
    }

    fn write(&self, out: &mut Vec<u8>) -> (res: Result<(), Error>) {
        self.0.write(out)
    }
}

/// Reading a version from the front of its four bytes, whatever follows, gives it back.
pub proof fn lemma_version_round_trip(version: Version, rest: Seq<u8>)
    ensures
        Version::spec_write(version) matches Ok(bytes) && bytes.len() == 4
            && Version::spec_read(bytes + rest) == Ok::<(Version, nat), Error>((version, 4)),
{
    lemma_pow256_values();
    lemma_be_bytes_value(version.0 as nat, 4);
    let bytes = be_bytes(version.0 as nat, 4);
    assert((bytes + rest).take(4) =~= bytes);
}

/// Versions read one after another from bytes of a whole number of versions followed by more
/// bytes are those read from the first bytes, then those read from the rest.
pub proof fn lemma_collect_versions_append(front: Seq<u8>, back: Seq<u8>)
    requires
        front.len() % 4 == 0,
    ensures
        spec_collect::<Version>(front + back) == match (spec_collect::<Version>(front), spec_collect::<Version>(back)) {
            (Ok(a), Ok(b)) => Ok::<Seq<Version>, Error>(a + b),
            (Ok(a), Err(e)) => Err(e),
            (Err(e), _) => Err(e),
        },
    decreases front.len(),
{
    if front.len() == 0 {
        assert(front + back =~= back);
        match spec_collect::<Version>(back) {
            Ok(b) => {
                assert(Seq::<Version>::empty() + b =~= b);
            },
            Err(e) => {},
        }
    } else {
        let whole = front + back;
        assert(whole.take(4) =~= front.take(4));
        let rest_front = front.subrange(4, front.len() as int);
        assert(whole.subrange(4, whole.len() as int) =~= rest_front + back);
        lemma_collect_versions_append(rest_front, back);
        match (spec_collect::<Version>(rest_front), spec_collect::<Version>(back)) {
            (Ok(a), Ok(b)) => {
                let v = Version(be_value(front.take(4)) as u32);
                assert(seq![v] + (a + b) =~= (seq![v] + a) + b);
            },
            _ => {},
        }
    }
}

/// Reading versions back from the bytes they are written as gives them back.
pub proof fn lemma_versions_round_trip(versions: Seq<Version>)
    ensures
        spec_write_all::<Version>(versions) matches Ok(bytes) && bytes.len() == 4 * versions.len()
            && spec_collect::<Version>(bytes) == Ok::<Seq<Version>, Error>(versions),
    decreases versions.len(),
{
    if versions.len() == 0 {
        assert(spec_collect::<Version>(Seq::<u8>::empty()) == Ok::<Seq<Version>, Error>(Seq::empty()));
        assert(versions =~= Seq::<Version>::empty());
    } else {
        let init = versions.drop_last();
        lemma_versions_round_trip(init);
        let front = spec_write_all::<Version>(init)->Ok_0;
        lemma_version_round_trip(versions.last(), Seq::empty());
        let back = Version::spec_write(versions.last())->Ok_0;
        assert(back + Seq::<u8>::empty() =~= back);
        lemma_collect_versions_append(front, back);
        assert(back.subrange(4, 4) =~= Seq::<u8>::empty());
        assert(spec_collect::<Version>(back) == Ok::<Seq<Version>, Error>(seq![versions.last()] + Seq::<Version>::empty()));
        assert(init + (seq![versions.last()] + Seq::<Version>::empty()) =~= versions);
    }
}

} // verus!
