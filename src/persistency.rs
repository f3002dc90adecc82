use vstd::prelude::*;
use vstd::slice::slice_to_vec;
use vstd::string::StringSliceAdditionalSpecFns;
use crate::blob::{fits_u32, encode_records, readable_records};
use crate::commit::{CommitStep, commit_plan, is_commit_plan, apply_steps, lemma_commit_crash_consistent};
use crate::monitor::{DebounceState, MonitorAction, MonitorEvent, step};
use crate::store::{
    PersistencyError, PersistencyStore, Watcher, KeySpec, key_pairs, unique_names, assign, load,
    lookup, lemma_reload, loadable, bytes_eq,
};
use crate::codec::{u128_bytes, encode_u128};

verus! {

/// How long the store stays quiet before the writer commits it: five minutes.
pub const WRITE_BACK_TIMEOUT_MS: u64 = 300000;

/// The registry after registering `name` with `default`: a name registered
/// before keeps its place and takes the new default (the last registration
/// wins); a new name comes last.
pub open spec fn register(keys: Seq<(Seq<u8>, Seq<u8>)>, name: Seq<u8>, default: Seq<u8>) -> Seq<
    (Seq<u8>, Seq<u8>),
> {
    if exists|i: int| 0 <= i < keys.len() && keys[i].0 == name {
        assign(keys, name, default)
    } else {
        keys.push((name, default))
    }
}

/// Collects the persisted keys, each with its serialized default, before the
/// store is built.
pub struct PersistencyBuilder {
    pub keys: Vec<KeySpec>,
}

/// The position of the key named `name`.
fn find_key(keys: &Vec<KeySpec>, name: &[u8]) -> (r: Option<usize>)
    ensures
        match r {
            Some(j) => j < keys@.len() && keys@[j as int].name@ == name@,
            None => forall|j: int| 0 <= j < keys@.len() ==> #[trigger] keys@[j].name@ != name@,
        },
{
    let mut i: usize = 0;
    while i < keys.len()
        invariant
            i <= keys@.len(),
            forall|k: int| 0 <= k < i ==> #[trigger] keys@[k].name@ != name@,
        decreases keys@.len() - i,
    {
        if bytes_eq(keys[i].name.as_slice(), name) {
            return Some(i);
        }
        i = i + 1;
    }
    None
}

impl PersistencyBuilder {
    pub open spec fn view(&self) -> Seq<(Seq<u8>, Seq<u8>)> {
        key_pairs(self.keys@)
    }

    pub open spec fn wf(&self) -> bool {
        unique_names(self@) && fits_u32(self@)
    }

    /// A builder with no keys.
    pub fn new() -> (r: Self)
        ensures
            r@ == Seq::<(Seq<u8>, Seq<u8>)>::empty(),
            r.keys@.len() == 0,
            r.wf(),
    {
        let r = PersistencyBuilder { keys: Vec::new() };
        assert(r@ =~= Seq::<(Seq<u8>, Seq<u8>)>::empty());
        r
    }

    /// Registers `key` with its serialized `default` and the fewest bytes
    /// that a serialized value of its type takes.
    pub fn register_key(self, key: &str, default: Vec<u8>, min_len: usize) -> (r: Self)
        requires
            self.wf(),
            key.spec_bytes().len() <= u32::MAX,
            default@.len() <= u32::MAX,
        ensures
            r.wf(),
            r@ == register(self@, key.spec_bytes(), default@),
            forall|i: int|
                0 <= i < r.keys@.len() ==> #[trigger] r.keys@[i].min_len == if r.keys@[i].name@
                    == key.spec_bytes() {
                    min_len
                } else {
                    self.keys@[i].min_len
                },
    {
        let mut keys = self.keys;
        let ghost old_keys = keys@;
        let ghost before = key_pairs(keys@);
        let name = key.as_bytes();
        let ghost d = default@;
        match find_key(&keys, name) {
            Some(j) => {
                proof {
                    assert(before[j as int].0 == name@);
                }
                let rec = KeySpec { name: slice_to_vec(name), default, min_len };
                keys.set(j, rec);
                assert(key_pairs(keys@) =~= assign(before, name@, d)) by {
                    assert forall|k: int| 0 <= k < before.len() && k != j implies before[k].0
                        != name@ by {
                        assert(before[k].0 != before[j as int].0);
                    }
                }
                assert forall|k: int| 0 <= k < keys@.len() && k != j implies keys@[k].name@
                    != name@ by {
                    assert(before[k].0 != before[j as int].0);
                }
            },
            None => {
                keys.push(KeySpec { name: slice_to_vec(name), default, min_len });
                assert(key_pairs(keys@) =~= before.push((name@, d)));
                assert(forall|k: int| 0 <= k < before.len() ==> before[k].0 == keys@[k].name@);
                assert(forall|k: int| 0 <= k < old_keys.len() ==> keys@[k] == old_keys[k]);
            },
        }
        let r = PersistencyBuilder { keys };
        assert(unique_names(r@)) by {
            assert forall|a: int, b: int| 0 <= a < r@.len() && 0 <= b < r@.len() && a != b
                implies r@[a].0 != r@[b].0 by {
                if a < before.len() && b < before.len() {
                    assert(r@[a].0 == before[a].0 && r@[b].0 == before[b].0);
                } else if a < before.len() {
                    assert(r@[a].0 == before[a].0);
                    assert(before[a].0 == keys@[a].name@);
                } else {
                    assert(r@[b].0 == before[b].0);
                    assert(before[b].0 == keys@[b].name@);
                }
            }
        }
        assert(fits_u32(r@)) by {
            assert forall|a: int| 0 <= a < r@.len() implies r@[a].0.len() <= u32::MAX
                && r@[a].1.len() <= u32::MAX by {
                if a < before.len() {
                    assert(r@[a].0 == before[a].0);
                }
            }
        }
        r
    }

    /// Registers `key` with a `u128` default.
    pub fn register_u128(self, key: &str, default: u128) -> (r: Self)
        requires
            self.wf(),
            key.spec_bytes().len() <= u32::MAX,
        ensures
            r.wf(),
            r@ == register(self@, key.spec_bytes(), u128_bytes(default)),
            forall|i: int|
                0 <= i < r.keys@.len() ==> #[trigger] r.keys@[i].min_len == if r.keys@[i].name@
                    == key.spec_bytes() {
                    16
                } else {
                    self.keys@[i].min_len
                },
    {
        let b = encode_u128(default);
        self.register_key(key, b, 16)
    }

    /// Builds the store from the bytes of its file, with the default
    /// write-back timeout.
    pub fn build(self, source: &[u8]) -> (r: Result<ApplicationPersistency, PersistencyError>)
        requires
            self.wf(),
        ensures
            match r {
                Ok(p) => loadable(source@) && p.wf() && p.context.inner@ == load(
                    self.keys@,
                    readable_records(source@),
                ) && p.write_timeout == Some(WRITE_BACK_TIMEOUT_MS) && p.monitor
                    == DebounceState::Idle && p.watcher.seen == p.context.inner.signal.generation,
                Err(e) => !loadable(source@) && e == PersistencyError::DeserializeError,
            },
    {
        ApplicationPersistency::new(&self.keys, source, Some(WRITE_BACK_TIMEOUT_MS))
    }
}

/// The store as the writer sees it.
pub struct MonitorContext {
    pub inner: PersistencyStore,
}

impl MonitorContext {
    /// The steps that commit the store to its file: staged, then renamed
    /// over the file.
    pub fn commit_to_file(&self) -> (r: Vec<CommitStep>)
        requires
            self.inner.wf(),
        ensures
            is_commit_plan(r@, encode_records(self.inner@), false),
    {
        let bytes = self.inner.serialize_all();
        commit_plan(bytes.as_slice(), false)
    }

    /// The steps that commit the store and then force its file to stable
    /// storage.
    pub fn sync_all(&self) -> (r: Vec<CommitStep>)
        requires
            self.inner.wf(),
        ensures
            is_commit_plan(r@, encode_records(self.inner@), true),
    {
        let bytes = self.inner.serialize_all();
        commit_plan(bytes.as_slice(), true)
    }
}

/// A key-value store for application state, with its debounced writer.
pub struct ApplicationPersistency {
    pub context: MonitorContext,
    /// The quiet period, in milliseconds, after which the writer commits;
    /// `None` where nothing is written but on request.
    pub write_timeout: Option<u64>,
    pub monitor: DebounceState,
    pub watcher: Watcher,
}

impl ApplicationPersistency {
    pub open spec fn wf(&self) -> bool {
        self.context.inner.wf()
    }

    /// The event that the writer sees when it wakes at `now`: the latest
    /// change where one was published since it last looked, the clock
    /// otherwise.
    pub open spec fn writer_event(&self, now: u64) -> MonitorEvent {
        if self.context.inner.signal.generation != self.watcher.seen {
            MonitorEvent::StoreChange { stamp: self.context.inner.signal.stamp }
        } else {
            MonitorEvent::DeadlineReached { now }
        }
    }

    /// Builds the store for `keys_with_default` from the bytes of its file.
    pub fn new(keys_with_default: &Vec<KeySpec>, source: &[u8], write_timeout: Option<u64>) -> (r:
        Result<Self, PersistencyError>)
        requires
            unique_names(key_pairs(keys_with_default@)),
            fits_u32(key_pairs(keys_with_default@)),
        ensures
            match r {
                Ok(p) => loadable(source@) && p.wf() && p.context.inner@ == load(
                    keys_with_default@,
                    readable_records(source@),
                ) && p.write_timeout == write_timeout && p.monitor == DebounceState::Idle
                    && p.watcher.seen == p.context.inner.signal.generation,
                Err(e) => !loadable(source@) && e == PersistencyError::DeserializeError,
            },
    {
        let inner = match PersistencyStore::new(keys_with_default, source) {
            Ok(s) => s,
            Err(e) => return Err(e),
        };
        let watcher = inner.signal.watch();
        Ok(ApplicationPersistency {
            context: MonitorContext { inner },
            write_timeout,
            monitor: DebounceState::Idle,
            watcher,
        })
    }

    /// One wake-up of the writer at time `now`: it takes in the latest change
    /// or the clock, moves its state, and says whether to commit. Without a
    /// write timeout it does nothing.
    pub fn filesystem_writer(&mut self, now: u64) -> (r: Result<MonitorAction, PersistencyError>)
        ensures
            final(self).context.inner@ == old(self).context.inner@,
            final(self).context.inner.signal == old(self).context.inner.signal,
            final(self).write_timeout == old(self).write_timeout,
            match old(self).write_timeout {
                None => r == Ok::<MonitorAction, PersistencyError>(MonitorAction::Wait)
                    && final(self).monitor == old(self).monitor && final(self).watcher == old(
                    self,
                ).watcher,
                Some(t) => final(self).watcher.seen == old(self).context.inner.signal.generation
                    && match step(old(self).monitor, old(self).writer_event(now), t) {
                    Some((s, a)) => r == Ok::<MonitorAction, PersistencyError>(a)
                        && final(self).monitor == s,
                    None => r == Err::<MonitorAction, PersistencyError>(
                        PersistencyError::TimeOverflow,
                    ) && final(self).monitor == old(self).monitor,
                },
            },
    {
        let timeout = match self.write_timeout {
            Some(t) => t,
            None => return Ok(MonitorAction::Wait),
        };
        let event = if self.context.inner.signal.has_changed(&self.watcher) {
            let stamp = self.context.inner.signal.borrow_and_update(&mut self.watcher);
            MonitorEvent::StoreChange { stamp }
        } else {
            MonitorEvent::DeadlineReached { now }
        };
        match self.monitor.next(event, timeout) {
            Ok((s, a)) => {
                self.monitor = s;
                Ok(a)
            },
            Err(e) => Err(e),
        }
    }

    /// The store, for reading.
    pub fn store(&self) -> (r: &PersistencyStore)
        ensures
            *r == self.context.inner,
    {
        &self.context.inner
    }

    /// Replaces the stored bytes of `key`, publishing the change at `now`.
    pub fn set(&mut self, key: &str, value: Vec<u8>, now: u64) -> (r: Result<(), PersistencyError>)
        requires
            old(self).wf(),
            value@.len() <= u32::MAX,
        ensures
            final(self).wf(),
            final(self).write_timeout == old(self).write_timeout,
            final(self).monitor == old(self).monitor,
            final(self).watcher == old(self).watcher,
            match lookup(old(self).context.inner@, key.spec_bytes()) {
                Some(_) => r is Ok && final(self).context.inner@ == assign(
                    old(self).context.inner@,
                    key.spec_bytes(),
                    value@,
                ) && final(self).context.inner.signal.stamp == now
                    && final(self).context.inner.signal.generation
                    == crate::store::next_generation(old(self).context.inner.signal.generation),
                None => r == Err::<(), PersistencyError>(PersistencyError::KeyNotFound)
                    && final(self).context.inner == old(self).context.inner,
            },
    {
        self.context.inner.set(key, value, now)
    }

    /// Stores `value` under `key`, publishing the change at `now`.
    pub fn set_u128(&mut self, key: &str, value: u128, now: u64) -> (r: Result<(), PersistencyError>)
        requires
            old(self).wf(),
        ensures
            final(self).wf(),
            final(self).write_timeout == old(self).write_timeout,
            final(self).monitor == old(self).monitor,
            final(self).watcher == old(self).watcher,
            match lookup(old(self).context.inner@, key.spec_bytes()) {
                Some(_) => r is Ok && final(self).context.inner@ == assign(
                    old(self).context.inner@,
                    key.spec_bytes(),
                    u128_bytes(value),
                ) && final(self).context.inner.signal.stamp == now
                    && final(self).context.inner.signal.generation
                    == crate::store::next_generation(old(self).context.inner.signal.generation),
                None => r == Err::<(), PersistencyError>(PersistencyError::KeyNotFound)
                    && final(self).context.inner == old(self).context.inner,
            },
    {
        self.context.inner.set_u128(key, value, now)
    }

    /// The steps of the final flush at shutdown: commit, then force the file
    /// to stable storage.
    pub fn close(&self) -> (r: Vec<CommitStep>)
        requires
            self.wf(),
        ensures
            is_commit_plan(r@, encode_records(self.context.inner@), true),
    {
        self.context.sync_all()
    }
}

/// A store committed to its file and loaded back from that file, against a
/// registry of the same keys in the same order, has every value it had,
/// whatever the file held before and whatever the defaults, where each value
/// decodes for its key.
pub proof fn lemma_commit_then_reload(
    keys: Seq<KeySpec>,
    s: Seq<(Seq<u8>, Seq<u8>)>,
    d: (Option<Seq<u8>>, Option<Seq<u8>>),
    steps: Seq<CommitStep>,
    full_sync: bool,
)
    requires
        unique_names(s),
        fits_u32(s),
        keys.len() == s.len(),
        forall|i: int| 0 <= i < s.len() ==> #[trigger] keys[i].name@ == s[i].0,
        forall|i: int| 0 <= i < s.len() ==> s[i].1.len() >= #[trigger] keys[i].min_len,
        is_commit_plan(steps, encode_records(s), full_sync),
    ensures
        apply_steps(d, steps).0 == Some(encode_records(s)),
        loadable(apply_steps(d, steps).0->0),
        load(keys, readable_records(apply_steps(d, steps).0->0)) == s,
{
    lemma_commit_crash_consistent(d, steps, encode_records(s), full_sync, 0);
    lemma_reload(keys, s);
}

/// A commit of a new store over the file of an old one, interrupted after
/// any number of its steps, leaves a file that loads as the old store or as
/// the new one, never as anything else, where both stores have the
/// registry's names in its order and values that decode for their keys.
pub proof fn lemma_interrupted_commit_reloads(
    keys: Seq<KeySpec>,
    s_old: Seq<(Seq<u8>, Seq<u8>)>,
    s_new: Seq<(Seq<u8>, Seq<u8>)>,
    staged: Option<Seq<u8>>,
    steps: Seq<CommitStep>,
    full_sync: bool,
    k: int,
)
    requires
        unique_names(s_old),
        fits_u32(s_old),
        keys.len() == s_old.len(),
        forall|i: int| 0 <= i < s_old.len() ==> #[trigger] keys[i].name@ == s_old[i].0,
        forall|i: int| 0 <= i < s_old.len() ==> s_old[i].1.len() >= #[trigger] keys[i].min_len,
        unique_names(s_new),
        fits_u32(s_new),
        keys.len() == s_new.len(),
        forall|i: int| 0 <= i < s_new.len() ==> #[trigger] keys[i].name@ == s_new[i].0,
        forall|i: int| 0 <= i < s_new.len() ==> s_new[i].1.len() >= #[trigger] keys[i].min_len,
        is_commit_plan(steps, encode_records(s_new), full_sync),
        0 <= k <= steps.len(),
    ensures
        apply_steps((Some(encode_records(s_old)), staged), steps.take(k)).0 is Some,
        load(
            keys,
            readable_records(apply_steps((Some(encode_records(s_old)), staged), steps.take(k)).0->0),
        ) == s_old || load(
            keys,
            readable_records(apply_steps((Some(encode_records(s_old)), staged), steps.take(k)).0->0),
        ) == s_new,
{
    lemma_commit_crash_consistent(
        (Some(encode_records(s_old)), staged),
        steps,
        encode_records(s_new),
        full_sync,
        k,
    );
    lemma_reload(keys, s_old);
    lemma_reload(keys, s_new);
}

} // verus!
