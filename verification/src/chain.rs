use vstd::prelude::*;

use crate::record::{spec_split_record, split_record, zero_padded, Error};
use crate::tag::tag_bytes;
use crate::sizing::{cmax, spec_cmax, spec_varint_max_bytes, varint_max_bytes};

verus! {

/// One schema version: its on-flash tag and the largest serialized size of
/// its wire payload.
#[derive(Debug, Clone, Copy, PartialEq, Eq, Structural)]
pub struct VersionEntry {
    pub tag: u16,
    pub wire_size: usize,
}

/// The most bytes a `u16` tag takes as a varint.
pub open spec fn tag_max_bytes() -> int {
    spec_varint_max_bytes(2)
}

/// Tags strictly increase from the oldest version (first) to the latest
/// (last); every real version's tag is at least 1, since 0 is the tag of the
/// base below the oldest version.
pub open spec fn tags_increase(s: Seq<VersionEntry>) -> bool {
    &&& forall|i: int| 0 <= i < s.len() ==> #[trigger] s[i].tag >= 1
    &&& forall|i: int, j: int| 0 <= i < j < s.len() ==> s[i].tag < s[j].tag
}

/// The tag a newer version must exceed: the latest tag, or 0 for the base.
pub open spec fn top_tag(s: Seq<VersionEntry>) -> u16 {
    if s.len() == 0 {
        0
    } else {
        s.last().tag
    }
}

/// The largest record of the chain: the largest wire payload of any version
/// plus the room for its tag, folded from the latest version down to the
/// base, which counts 0.
pub open spec fn spec_record_max(s: Seq<VersionEntry>) -> int
    decreases s.len(),
{
    if s.len() == 0 {
        0
    } else {
        spec_cmax(s.last().wire_size + tag_max_bytes(), spec_record_max(s.drop_last()))
    }
}

/// How many migration steps a record with `tag` needs: 0 when the latest
/// version has that tag, one more for each step down the chain, and `None`
/// when the walk reaches the base without a match.
pub open spec fn spec_steps(s: Seq<VersionEntry>, tag: u16) -> Option<nat>
    decreases s.len(),
{
    if s.len() == 0 {
        None
    } else if s.last().tag == tag {
        Some(0)
    } else {
        match spec_steps(s.drop_last(), tag) {
            Some(k) => Some(k + 1),
            None => None,
        }
    }
}

/// The versions of a schema, from the oldest to the latest.
pub struct VersionChain {
    entries: Vec<VersionEntry>,
}

impl View for VersionChain {
    type V = Seq<VersionEntry>;

    closed spec fn view(&self) -> Seq<VersionEntry> {
        self.entries@
    }
}

impl VersionChain {
    #[verifier::type_invariant]
    spec fn well_formed(self) -> bool {
        &&& tags_increase(self.entries@)
        &&& forall|i: int|
            0 <= i < self.entries@.len() ==> #[trigger] self.entries@[i].wire_size + tag_max_bytes()
                <= usize::MAX
    }

    /// The chain with no version: only the base.
    pub fn new() -> (r: Self)
        ensures
            r@ == Seq::<VersionEntry>::empty(),
            tags_increase(r@),
    {
        VersionChain { entries: Vec::new() }
    }

    /// Number of versions in the chain.
    pub fn len(&self) -> (r: usize)
        ensures
            r == self@.len(),
    {
        self.entries.len()
    }

    /// Adds a newer version on top of the chain. It is refused, and the chain
    /// left as it was, when its tag does not exceed the latest tag (0 for an
    /// empty chain) or its record size would not fit in a `usize`.
    pub fn push(&mut self, tag: u16, wire_size: usize) -> (added: bool)
        ensures
            added == (tag > top_tag(old(self)@) && wire_size + tag_max_bytes() <= usize::MAX),
            added ==> final(self)@ == old(self)@.push(VersionEntry { tag, wire_size }),
            !added ==> final(self)@ == old(self)@,
            tags_increase(final(self)@),
    {
        proof {
            use_type_invariant(&*self);
        }
        let n = self.entries.len();
        let top = if n == 0 {
            0
        } else {
            self.entries[n - 1].tag
        };
        if tag <= top || wire_size > usize::MAX - varint_max_bytes(2) {
            return false;
        }
        let ghost before = self.entries@;
        let mut entries = Vec::new();
        std::mem::swap(&mut entries, &mut self.entries);
        entries.push(VersionEntry { tag, wire_size });
        assert(entries@ == before.push(VersionEntry { tag, wire_size }));
        assert(tags_increase(entries@));
        self.entries = entries;
        true
    }

    /// The number of migration steps from the version that carries `tag` up
    /// to the latest, walking down from the latest; `Corrupt` when no version
    /// carries it (the base's tag 0 included).
    pub fn resolve(&self, tag: u16) -> (r: Result<usize, Error>)
        ensures
            match spec_steps(self@, tag) {
                Some(k) => r matches Ok(steps) && steps == k,
                None => r == Err::<usize, Error>(Error::Corrupt),
            },
    {
        let n = self.entries.len();
        let mut steps: usize = 0;
        while steps < n
            invariant
                n == self@.len(),
                steps <= n,
                forall|j: int| n - steps <= j < n ==> #[trigger] self@[j].tag != tag,
            decreases n - steps,
        {
            if self.entries[n - 1 - steps].tag == tag {
                proof {
                    lemma_steps_found(self@, tag, steps as nat);
                }
                return Ok(steps);
            }
            steps = steps + 1;
        }
        proof {
            lemma_steps_missing(self@, tag);
        }
        Err(Error::Corrupt)
    }

    /// The largest record any version of the chain can produce: size record
    /// buffers to it (plus one).
    pub fn record_max(&self) -> (r: usize)
        ensures
            r == spec_record_max(self@),
    {
        proof {
            use_type_invariant(self);
        }
        let n = self.entries.len();
        let mut acc: usize = 0;
        let mut i: usize = 0;
        while i < n
            invariant
                n == self@.len(),
                i <= n,
                acc == spec_record_max(self@.subrange(0, i as int)),
                forall|j: int|
                    0 <= j < n ==> #[trigger] self@[j].wire_size + tag_max_bytes() <= usize::MAX,
            decreases n - i,
        {
            proof {
                lemma_record_max_bounds(self@.subrange(0, i as int));
                assert(self@.subrange(0, i + 1).drop_last() =~= self@.subrange(0, i as int));
            }
            let size = self.entries[i].wire_size + varint_max_bytes(2);
            acc = cmax(size, acc);
            i = i + 1;
        }
        assert(self@.subrange(0, n as int) =~= self@);
        acc
    }

    /// Splits a stored record with `scratch` and finds its version: the
    /// number of migration steps up to the latest version and where, in
    /// `scratch`, the zero-padded body to decode at that version starts.
    /// `Corrupt` when the record does not split or its tag belongs to no
    /// version. `scratch` ends as `split_record` leaves it.
    pub fn locate(&self, record: &[u8], scratch: &mut [u8]) -> (r: Result<(usize, usize), Error>)
        ensures
            final(scratch)@.len() == old(scratch)@.len(),
            record@.len() <= old(scratch)@.len() ==> final(scratch)@ == zero_padded(
                record@,
                old(scratch)@.len(),
            ),
            record@.len() > old(scratch)@.len() ==> final(scratch)@ == old(scratch)@,
            record@.len() <= old(scratch)@.len() ==> {
                &&& forall|j: int|
                    0 <= j < record@.len() ==> #[trigger] final(scratch)@[j] == record@[j]
                &&& forall|j: int|
                    record@.len() <= j < old(scratch)@.len() ==> #[trigger] final(scratch)@[j]
                        == 0u8
            },
            match spec_split_record(record@, old(scratch)@.len()) {
                Some((t, body)) => match spec_steps(self@, t) {
                    Some(k) => r matches Ok((steps, start)) && steps == k && start
                        <= old(scratch)@.len() && final(scratch)@.subrange(
                        start as int,
                        old(scratch)@.len() as int,
                    ) == body,
                    None => r == Err::<(usize, usize), Error>(Error::Corrupt),
                },
                None => r == Err::<(usize, usize), Error>(Error::Corrupt),
            },
    {
        let (tag, start) = match split_record(record, scratch) {
            Ok(split) => split,
            Err(e) => return Err(e),
        };
        match self.resolve(tag) {
            Ok(steps) => Ok((steps, start)),
            Err(e) => Err(e),
        }
    }
}

/// When version `s.len() - 1 - k` carries `tag` and none above it does, the
/// walk down from the latest stops there after `k` steps.
pub proof fn lemma_steps_found(s: Seq<VersionEntry>, tag: u16, k: nat)
    requires
        k < s.len(),
        s[s.len() - 1 - k].tag == tag,
        forall|j: int| s.len() - k <= j < s.len() ==> #[trigger] s[j].tag != tag,
    ensures
        spec_steps(s, tag) == Some(k),
    decreases k,
{
    if k > 0 {
        let t = s.drop_last();
        assert forall|j: int| t.len() - (k - 1) <= j < t.len() implies #[trigger] t[j].tag != tag by {
            assert(t[j] == s[j]);
        }
        assert(s.last() == s[s.len() - 1]);
        lemma_steps_found(t, tag, (k - 1) as nat);
    }
}

/// A walk that stops after `k` steps stops inside the chain, at a version
/// that carries `tag`; a walk that finds nothing saw no version carrying it.
pub proof fn lemma_steps_index(s: Seq<VersionEntry>, tag: u16)
    ensures
        spec_steps(s, tag) matches Some(k) ==> k < s.len() && s[s.len() - 1 - k].tag == tag,
        spec_steps(s, tag) is None ==> forall|j: int| 0 <= j < s.len() ==> #[trigger] s[j].tag != tag,
    decreases s.len(),
{
    if s.len() > 0 {
        let t = s.drop_last();
        lemma_steps_index(t, tag);
        assert(s.last() == s[s.len() - 1]);
        if let Some(k) = spec_steps(t, tag) {
            assert(t[t.len() - 1 - k] == s[s.len() - 1 - (k + 1)]);
        }
        assert forall|j: int| 0 <= j < t.len() implies t[j] == s[j] by {}
    }
}

/// The walk finds nothing when no version carries `tag`.
pub proof fn lemma_steps_missing(s: Seq<VersionEntry>, tag: u16)
    requires
        forall|j: int| 0 <= j < s.len() ==> #[trigger] s[j].tag != tag,
    ensures
        spec_steps(s, tag) is None,
    decreases s.len(),
{
    if s.len() > 0 {
        let t = s.drop_last();
        assert forall|j: int| 0 <= j < t.len() implies #[trigger] t[j].tag != tag by {
            assert(t[j] == s[j]);
        }
        assert(s.last() == s[s.len() - 1]);
        lemma_steps_missing(t, tag);
    }
}

/// Every version's record fits in the chain's record maximum, which is the
/// record size of some version (or 0 for an empty chain) and fits in a
/// `usize`.
pub proof fn lemma_record_max_bounds(s: Seq<VersionEntry>)
    requires
        forall|i: int| 0 <= i < s.len() ==> #[trigger] s[i].wire_size + tag_max_bytes() <= usize::MAX,
    ensures
        0 <= spec_record_max(s) <= usize::MAX,
        forall|i: int|
            0 <= i < s.len() ==> #[trigger] s[i].wire_size + tag_max_bytes() <= spec_record_max(s),
        s.len() == 0 ==> spec_record_max(s) == 0,
        s.len() > 0 ==> exists|i: int|
            0 <= i < s.len() && spec_record_max(s) == #[trigger] s[i].wire_size + tag_max_bytes(),
    decreases s.len(),
{
    if s.len() > 0 {
        let t = s.drop_last();
        assert forall|i: int| 0 <= i < t.len() implies #[trigger] t[i].wire_size + tag_max_bytes()
            <= usize::MAX by {
            assert(t[i] == s[i]);
        }
        lemma_record_max_bounds(t);
        assert forall|i: int| 0 <= i < s.len() implies #[trigger] s[i].wire_size + tag_max_bytes()
            <= spec_record_max(s) by {
            if i < t.len() {
                assert(t[i] == s[i]);
            }
        }
        if spec_record_max(s) == s.last().wire_size + tag_max_bytes() {
            assert(s[s.len() - 1] == s.last());
        } else {
            let i = choose|i: int|
                0 <= i < t.len() && spec_record_max(t) == #[trigger] t[i].wire_size
                    + tag_max_bytes();
            assert(t[i] == s[i]);
        }
    }
}

/// In a chain whose tags increase, a tag belongs to one version at most: the
/// version the walk stops at is the only one carrying the tag. The base's tag
/// 0 never resolves.
pub proof fn lemma_steps_unique(s: Seq<VersionEntry>, tag: u16)
    requires
        tags_increase(s),
    ensures
        spec_steps(s, tag) matches Some(k) ==> forall|j: int|
            0 <= j < s.len() && #[trigger] s[j].tag == tag ==> j == s.len() - 1 - k,
        spec_steps(s, 0) is None,
{
    lemma_steps_index(s, tag);
    lemma_steps_index(s, 0);
    if let Some(k) = spec_steps(s, 0) {
        assert(s[s.len() - 1 - k].tag >= 1);
    }
}

/// Reading back what was written: a record made of the tag of version `i` and
/// any payload that fits in the scratch of `n` bytes splits into that tag and
/// the payload followed by zeros, and resolves to version `i`, which is
/// `s.len() - 1 - i` migration steps below the latest.
pub proof fn lemma_versioned_roundtrip(s: Seq<VersionEntry>, i: int, payload: Seq<u8>, n: nat)
    requires
        tags_increase(s),
        0 <= i < s.len(),
        tag_bytes(s[i].tag).len() + payload.len() <= n,
    ensures
        spec_split_record(tag_bytes(s[i].tag) + payload, n) == Some(
            (s[i].tag, zero_padded(payload, (n - tag_bytes(s[i].tag).len()) as nat)),
        ),
        spec_steps(s, s[i].tag) == Some((s.len() - 1 - i) as nat),
{
    crate::record::lemma_record_roundtrip(s[i].tag, payload, n);
    let k = (s.len() - 1 - i) as nat;
    assert forall|j: int| s.len() - k <= j < s.len() implies #[trigger] s[j].tag != s[i].tag by {
        assert(s[i].tag < s[j].tag);
    }
    lemma_steps_found(s, s[i].tag, k);
}

/// A record of any version, whose payload is no larger than that version's
/// wire size, fits in the chain's record maximum; a scratch of one more byte
/// than that therefore holds every record the chain can produce.
pub proof fn lemma_record_fits(s: Seq<VersionEntry>, i: int, payload_len: nat)
    requires
        forall|j: int| 0 <= j < s.len() ==> #[trigger] s[j].wire_size + tag_max_bytes() <= usize::MAX,
        0 <= i < s.len(),
        payload_len <= s[i].wire_size,
    ensures
        tag_bytes(s[i].tag).len() + payload_len <= spec_record_max(s),
        tag_bytes(s[i].tag).len() + payload_len < spec_record_max(s) + 1,
{
    lemma_record_max_bounds(s);
    crate::tag::lemma_tag_bytes_len(s[i].tag);
    assert(s[i].wire_size + tag_max_bytes() <= spec_record_max(s));
}

proof fn lemma_tag_at_least_position(s: Seq<VersionEntry>, i: int)
    requires
        tags_increase(s),
        0 <= i < s.len(),
    ensures
        s[i].tag >= i + 1,
    decreases i,
{
    if i > 0 {
        lemma_tag_at_least_position(s, i - 1);
        assert(s[i - 1].tag < s[i].tag);
    }
}

/// Loading terminates within a bound set by the latest tag: in a chain whose
/// tags increase, the chain has at most as many versions as its latest tag,
/// and the walk down from the latest stops after fewer steps than that, so
/// with the base it visits at most the latest tag plus one levels.
pub proof fn lemma_walk_bounded_by_latest_tag(s: Seq<VersionEntry>, tag: u16)
    requires
        tags_increase(s),
    ensures
        s.len() <= top_tag(s),
        spec_steps(s, tag) matches Some(k) ==> k + 1 <= top_tag(s),
{
    if s.len() > 0 {
        lemma_tag_at_least_position(s, s.len() - 1);
        assert(s.last() == s[s.len() - 1]);
    }
    lemma_steps_index(s, tag);
}

} // verus!
