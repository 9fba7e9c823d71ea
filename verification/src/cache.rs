use vstd::prelude::*;
use vstd::std_specs::cmp::PartialEqSpec;

verus! {

/// Error returned when loading the settings.
#[derive(Debug)]
pub enum LoadError<FE, BE> {
    /// The stored record could not be decoded by the format.
    Deserialize(FE),
    /// The storage backend failed.
    Storage(BE),
}

/// Error returned when committing the settings.
#[derive(Debug)]
pub enum CommitError<SE, BE> {
    /// The value could not be encoded by the format.
    Serialize(SE),
    /// The storage backend failed.
    Storage(BE),
}

/// The in-memory settings value plus a flag telling whether it has diverged
/// from what storage holds.
#[derive(Clone, Copy)]
pub struct Cached<T> {
    pub value: T,
    pub dirty: bool,
}

impl<T: Copy + PartialEq> Cached<T> {
    /// The cache after `new` replaces the value: dirty when it already was or
    /// when the new value differs from the old one.
    pub open spec fn after_update(self, new: T) -> Self {
        Cached { value: new, dirty: self.dirty || !new.eq_spec(&self.value) }
    }

    /// Taking a snapshot to commit: a dirty cache hands out its value and
    /// becomes clean; a clean one hands out nothing and stays as it is.
    pub open spec fn after_take(self) -> (Option<T>, Self) {
        if self.dirty {
            (Some(self.value), Cached { value: self.value, dirty: false })
        } else {
            (None, self)
        }
    }

    /// A commit that failed marks the current value dirty again, so a later
    /// commit retries it.
    pub open spec fn after_failed_commit(self) -> Self {
        Cached { value: self.value, dirty: true }
    }

    /// A clean cache holding `value`.
    pub fn new(value: T) -> (r: Self)
        ensures
            r == (Cached { value, dirty: false }),
    {
        Cached { value, dirty: false }
    }

    /// The cached value.
    pub fn get(&self) -> (r: T)
        ensures
            r == self.value,
    {
        self.value
    }

    /// Whether the cached value has diverged from storage.
    pub fn is_dirty(&self) -> (r: bool)
        ensures
            r == self.dirty,
    {
        self.dirty
    }

    /// Replaces the value with `f` applied to it. The cache becomes dirty
    /// when `f` changes the value, and stays dirty when it already was.
    pub fn update<F: FnOnce(T) -> T>(&mut self, f: F)
        requires
            f.requires((old(self).value,)),
        ensures
            f.ensures((old(self).value,), final(self).value),
            old(self).dirty ==> final(self).dirty,
            T::obeys_eq_spec() ==> *final(self) == old(self).after_update(final(self).value),
    {
        let cur = *self;
        let new = f(cur.value);
        let dirty = cur.dirty || new != cur.value;
        *self = Cached { value: new, dirty };
    }

    /// Takes the snapshot for a commit: when the cache is dirty it returns the
    /// value and clears the flag; when it is clean there is nothing to write.
    pub fn take_dirty(&mut self) -> (r: Option<T>)
        ensures
            (r, *final(self)) == old(self).after_take(),
    {
        if self.dirty {
            self.dirty = false;
            Some(self.value)
        } else {
            None
        }
    }

    /// Records how a commit ended and passes the outcome on: on an error the
    /// current value is marked dirty again so that a later commit retries.
    pub fn finish_commit<SE, BE>(&mut self, outcome: Result<(), CommitError<SE, BE>>) -> (r: Result<
        (),
        CommitError<SE, BE>,
    >)
        ensures
            r == outcome,
            outcome is Err ==> *final(self) == old(self).after_failed_commit(),
            outcome is Ok ==> *final(self) == *old(self),
    {
        match outcome {
            Ok(done) => Ok(done),
            Err(e) => {
                self.dirty = true;
                Err(e)
            },
        }
    }

    /// Records how a load ended: a loaded value replaces the cache, clean,
    /// and gives `Ok(true)`; no stored record gives `Ok(false)`; an error is
    /// passed on. In both of the last cases the cache is left as it was.
    pub fn finish_load<FE, BE>(&mut self, loaded: Result<Option<T>, LoadError<FE, BE>>) -> (r:
        Result<bool, LoadError<FE, BE>>)
        ensures
            match loaded {
                Ok(Some(v)) => r == Ok::<bool, LoadError<FE, BE>>(true) && *final(self) == (Cached {
                    value: v,
                    dirty: false,
                }),
                Ok(None) => r == Ok::<bool, LoadError<FE, BE>>(false) && *final(self) == *old(self),
                Err(e) => r == Err::<bool, LoadError<FE, BE>>(e) && *final(self) == *old(self),
            },
    {
        match loaded {
            Ok(Some(v)) => {
                *self = Cached { value: v, dirty: false };
                Ok(true)
            },
            Ok(None) => Ok(false),
            Err(e) => Err(e),
        }
    }
}

/// Turns what the storage backend reported for a load into what the cache
/// receives: a storage error passes on as `LoadError::Storage` and no record
/// as `Ok(None)`, without decoding; a record of `n` bytes is decoded by
/// `decode(n)`, whose value comes back as `Ok(Some(..))` and whose error as
/// `LoadError::Deserialize`.
pub fn decode_stored<T, FE, BE, D: FnOnce(usize) -> Result<T, FE>>(
    stored: Result<Option<usize>, BE>,
    decode: D,
) -> (r: Result<Option<T>, LoadError<FE, BE>>)
    requires
        stored matches Ok(Some(n)) ==> decode.requires((n,)),
    ensures
        match stored {
            Ok(Some(n)) => exists|d: Result<T, FE>|
                #[trigger] decode.ensures((n,), d) && r == match d {
                    Ok(v) => Ok::<Option<T>, LoadError<FE, BE>>(Some(v)),
                    Err(e) => Err(LoadError::Deserialize(e)),
                },
            Ok(None) => r == Ok::<Option<T>, LoadError<FE, BE>>(None),
            Err(e) => r == Err::<Option<T>, LoadError<FE, BE>>(LoadError::Storage(e)),
        },
{
    match stored {
        Ok(Some(n)) => match decode(n) {
            Ok(value) => Ok(Some(value)),
            Err(e) => Err(LoadError::Deserialize(e)),
        },
        Ok(None) => Ok(None),
        Err(e) => Err(LoadError::Storage(e)),
    }
}

/// Turns the serialization of a commit's snapshot into what the commit does
/// next: `Ok(n)`, store the `n` bytes, or `CommitError::Serialize`, store
/// nothing.
pub fn encode_snapshot<T, SE, BE, S: FnOnce(T) -> Result<usize, SE>>(value: T, serialize: S) -> (r:
    Result<usize, CommitError<SE, BE>>)
    requires
        serialize.requires((value,)),
    ensures
        exists|d: Result<usize, SE>|
            #[trigger] serialize.ensures((value,), d) && r == match d {
                Ok(n) => Ok::<usize, CommitError<SE, BE>>(n),
                Err(e) => Err(CommitError::Serialize(e)),
            },
{
    match serialize(value) {
        Ok(n) => Ok(n),
        Err(e) => Err(CommitError::Serialize(e)),
    }
}

/// The cache after each value of `vals` in turn replaced its value.
pub open spec fn after_updates<T: Copy + PartialEq>(c: Cached<T>, vals: Seq<T>) -> Cached<T>
    decreases vals.len(),
{
    if vals.len() == 0 {
        c
    } else {
        after_updates(c, vals.drop_last()).after_update(vals.last())
    }
}

/// Committing a clean cache writes nothing and changes nothing.
pub proof fn lemma_clean_commit_is_noop<T: Copy + PartialEq>(c: Cached<T>)
    requires
        !c.dirty,
    ensures
        c.after_take() == (None::<T>, c),
{
}

/// A commit that fails after taking its snapshot leaves the cache exactly as
/// it was before the commit, dirty, so the next commit retries the same value.
pub proof fn lemma_failed_commit_retries<T: Copy + PartialEq>(c: Cached<T>)
    requires
        c.dirty,
    ensures
        c.after_take().0 == Some(c.value),
        c.after_take().1.after_failed_commit() == c,
        c.after_take().1.after_failed_commit().after_take() == c.after_take(),
{
}

/// Once a snapshot is taken, a second commit has nothing to write until the
/// value changes again.
pub proof fn lemma_commit_once<T: Copy + PartialEq>(c: Cached<T>)
    ensures
        c.after_take().1.after_take().0 is None,
        !c.after_take().1.dirty,
{
}

/// An update that leaves the value equal does not mark the cache dirty.
pub proof fn lemma_equal_update_keeps_flag<T: Copy + PartialEq>(c: Cached<T>, new: T)
    requires
        new.eq_spec(&c.value),
    ensures
        c.after_update(new).dirty == c.dirty,
        c.after_update(new).value == new,
{
}

/// Updates coalesce: after several updates the cache holds the last value, a
/// pending write is never lost, and one commit writes that last value.
pub proof fn lemma_updates_coalesce<T: Copy + PartialEq>(c: Cached<T>, vals: Seq<T>)
    ensures
        vals.len() > 0 ==> after_updates(c, vals).value == vals.last(),
        vals.len() == 0 ==> after_updates(c, vals) == c,
        c.dirty ==> after_updates(c, vals).dirty,
        vals.len() > 0 && after_updates(c, vals).dirty ==> after_updates(c, vals).after_take().0
            == Some(vals.last()),
    decreases vals.len(),
{
    if vals.len() > 0 {
        lemma_updates_coalesce(c, vals.drop_last());
    }
}

/// One call on the settings, as far as the cache sees it.
pub enum CacheCall<T> {
    /// `update` with the value its function returned.
    Update(T),
    /// `load`: `Some(Some(v))` loaded `v`, `Some(None)` found no record and
    /// `None` failed.
    Load(Option<Option<T>>),
    /// `commit`: `true` when serializing and storing the snapshot succeeded.
    Commit(bool),
}

/// The cache, and the value that storage holds, after `call`.
pub open spec fn after_call<T: Copy + PartialEq>(s: (Cached<T>, T), call: CacheCall<T>) -> (
    Cached<T>,
    T,
) {
    match call {
        CacheCall::Update(w) => (s.0.after_update(w), s.1),
        CacheCall::Load(Some(Some(v))) => (Cached { value: v, dirty: false }, v),
        CacheCall::Load(_) => s,
        CacheCall::Commit(stored) => match s.0.after_take() {
            (Some(v), taken) => if stored {
                (taken, v)
            } else {
                (taken.after_failed_commit(), s.1)
            },
            (None, same) => (same, s.1),
        },
    }
}

/// The cache and the stored value after each call of `calls` in turn.
pub open spec fn after_calls<T: Copy + PartialEq>(s: (Cached<T>, T), calls: Seq<CacheCall<T>>) -> (
    Cached<T>,
    T,
)
    decreases calls.len(),
{
    if calls.len() == 0 {
        s
    } else {
        after_call(after_calls(s, calls.drop_last()), calls.last())
    }
}

/// A clean cache holds what storage holds.
pub open spec fn clean_means_stored<T>(s: (Cached<T>, T)) -> bool {
    !s.0.dirty ==> s.0.value == s.1
}

proof fn lemma_calls_keep_clean_means_stored<T: Copy + PartialEq>(
    s: (Cached<T>, T),
    calls: Seq<CacheCall<T>>,
)
    requires
        vstd::laws_eq::obeys_concrete_eq::<T>(),
        clean_means_stored(s),
    ensures
        clean_means_stored(after_calls(s, calls)),
    decreases calls.len(),
{
    reveal(vstd::laws_eq::obeys_concrete_eq);
    if calls.len() > 0 {
        lemma_calls_keep_clean_means_stored(s, calls.drop_last());
    }
}

/// A changed value is never left unpersisted: starting from a fresh cache
/// over storage that holds its value, after any sequence of calls that do not
/// overlap, a cached value that differs from the stored one is dirty, and the
/// next commit takes it to serialize and store.
pub proof fn lemma_changes_are_persisted<T: Copy + PartialEq>(
    initial: T,
    calls: Seq<CacheCall<T>>,
)
    requires
        vstd::laws_eq::obeys_concrete_eq::<T>(),
    ensures
        ({
            let s = after_calls((Cached { value: initial, dirty: false }, initial), calls);
            s.0.value != s.1 ==> s.0.dirty && s.0.after_take().0 == Some(s.0.value)
        }),
{
    lemma_calls_keep_clean_means_stored((Cached { value: initial, dirty: false }, initial), calls);
}

proof fn lemma_updates_keep_clean_value<T: Copy + PartialEq>(c: Cached<T>, vals: Seq<T>, v: T)
    requires
        vstd::laws_eq::obeys_concrete_eq::<T>(),
        !c.dirty ==> c.value == v,
    ensures
        !after_updates(c, vals).dirty ==> after_updates(c, vals).value == v,
    decreases vals.len(),
{
    reveal(vstd::laws_eq::obeys_concrete_eq);
    if vals.len() > 0 {
        lemma_updates_keep_clean_value(c, vals.drop_last(), v);
    }
}

/// Updates made while a commit is under way, after it took its snapshot, are
/// not lost: when the commit ends, stored or failed, the cache holds the last
/// update; if that differs from the snapshot the cache is dirty and the next
/// commit writes it; and a failed commit marks the current value dirty and
/// never reverts it to the snapshot.
pub proof fn lemma_update_during_commit<T: Copy + PartialEq>(
    c: Cached<T>,
    vals: Seq<T>,
    stored: bool,
)
    requires
        vstd::laws_eq::obeys_concrete_eq::<T>(),
        c.dirty,
    ensures
        ({
            let during = after_updates(c.after_take().1, vals);
            let done = if stored {
                during
            } else {
                during.after_failed_commit()
            };
            &&& c.after_take().0 == Some(c.value)
            &&& vals.len() > 0 ==> done.value == vals.last()
            &&& done.value != c.value ==> done.dirty && done.after_take().0 == Some(done.value)
            &&& !stored ==> done.dirty && done.value == during.value
        }),
{
    lemma_updates_coalesce(c.after_take().1, vals);
    lemma_updates_keep_clean_value(c.after_take().1, vals, c.value);
}

} // verus!
