use vstd::prelude::*;
use vstd::string::StringSliceAdditionalSpecFns;
use crate::blob::{
    Record, records_view, fits_u32, serialize_records, encode_records,
    lemma_records_round_trip, readable_records, read_records, lemma_readable_fits,
    lemma_readable_of_parsed,
};
use crate::codec::{encode_u128, decode_u128, u128_bytes, u128_of_bytes};
use vstd::slice::slice_to_vec;

verus! {

/// Why a store operation failed.
#[derive(Debug, PartialEq, Eq, Structural)]
pub enum PersistencyError {
    /// The key was never registered.
    KeyNotFound,
    /// The stored bytes do not decode as the requested type, or the persisted
    /// blob cannot be parsed at all.
    DeserializeError,
    /// A deadline does not fit the clock's range.
    TimeOverflow,
}

/// `j` is the first position of `rs` whose name is `name`.
pub open spec fn is_first(rs: Seq<(Seq<u8>, Seq<u8>)>, name: Seq<u8>, j: int) -> bool {
    0 <= j < rs.len() && rs[j].0 == name && forall|k: int| 0 <= k < j ==> rs[k].0 != name
}

/// The value of the first record named `name`, if any.
pub open spec fn lookup(rs: Seq<(Seq<u8>, Seq<u8>)>, name: Seq<u8>) -> Option<Seq<u8>> {
    if exists|j: int| is_first(rs, name, j) {
        Some(rs[choose|j: int| is_first(rs, name, j)].1)
    } else {
        None
    }
}

/// No two records share a name.
pub open spec fn unique_names(rs: Seq<(Seq<u8>, Seq<u8>)>) -> bool {
    forall|i: int, j: int| 0 <= i < rs.len() && 0 <= j < rs.len() && i != j ==> rs[i].0 != rs[j].0
}

/// `rs` with the value of every record named `name` replaced by `v`.
pub open spec fn assign(rs: Seq<(Seq<u8>, Seq<u8>)>, name: Seq<u8>, v: Seq<u8>) -> Seq<
    (Seq<u8>, Seq<u8>),
> {
    rs.map(|i: int, e: (Seq<u8>, Seq<u8>)| if e.0 == name { (e.0, v) } else { e })
}

/// A registered key: its name, its serialized default, and the fewest bytes
/// that a serialized value of its type takes (sixteen for a `u128`). A
/// persisted value shorter than that cannot decode and gives way to the
/// default.
pub struct KeySpec {
    pub name: Vec<u8>,
    pub default: Vec<u8>,
    pub min_len: usize,
}

/// The names and defaults of a registry.
pub open spec fn key_pairs(keys: Seq<KeySpec>) -> Seq<(Seq<u8>, Seq<u8>)> {
    keys.map_values(|k: KeySpec| (k.name@, k.default@))
}

/// The value that a key takes from the persisted records: the persisted one
/// where there is one that decodes, its default otherwise.
pub open spec fn loaded_value(k: KeySpec, persisted: Seq<(Seq<u8>, Seq<u8>)>) -> Seq<u8> {
    match lookup(persisted, k.name@) {
        Some(v) => if v.len() >= k.min_len {
            v
        } else {
            k.default@
        },
        None => k.default@,
    }
}

/// The store that a registry gives over the records read from a persisted
/// blob: each key on its own takes its persisted value where that decodes,
/// its default otherwise.
pub open spec fn load(keys: Seq<KeySpec>, persisted: Seq<(Seq<u8>, Seq<u8>)>) -> Seq<
    (Seq<u8>, Seq<u8>),
> {
    keys.map(|i: int, k: KeySpec| (k.name@, loaded_value(k, persisted)))
}

/// A blob can be loaded unless it is not empty and not one record can be
/// read from it.
pub open spec fn loadable(source: Seq<u8>) -> bool {
    source.len() == 0 || readable_records(source).len() > 0
}

pub proof fn lemma_lookup_at(rs: Seq<(Seq<u8>, Seq<u8>)>, name: Seq<u8>, j: int)
    requires
        is_first(rs, name, j),
    ensures
        lookup(rs, name) == Some(rs[j].1),
{
    let c = choose|c: int| is_first(rs, name, c);
    assert(c == j) by {
        if c < j {
            assert(rs[c].0 != name);
        } else if c > j {
            assert(rs[j].0 != name);
        }
    }
}

proof fn lemma_unique_first(rs: Seq<(Seq<u8>, Seq<u8>)>, name: Seq<u8>, j: int)
    requires
        unique_names(rs),
        0 <= j < rs.len(),
        rs[j].0 == name,
    ensures
        is_first(rs, name, j),
        lookup(rs, name) == Some(rs[j].1),
{
    assert forall|k: int| 0 <= k < j implies rs[k].0 != name by {
        assert(rs[k].0 != rs[j].0);
    }
    lemma_lookup_at(rs, name, j);
}

/// Whether two byte strings are equal.
pub fn bytes_eq(a: &[u8], b: &[u8]) -> (r: bool)
    ensures
        r == (a@ == b@),
{
    if a.len() != b.len() {
        return false;
    }
    let mut i: usize = 0;
    while i < a.len()
        invariant
            i <= a@.len() == b@.len(),
            a@.subrange(0, i as int) == b@.subrange(0, i as int),
        decreases a@.len() - i,
    {
        if a[i] != b[i] {
            return false;
        }
        i = i + 1;
        assert(a@.subrange(0, i as int) =~= a@.subrange(0, i - 1).push(a@[i - 1]));
        assert(b@.subrange(0, i as int) =~= b@.subrange(0, i - 1).push(b@[i - 1]));
    }
    assert(a@ =~= a@.subrange(0, i as int));
    assert(b@ =~= b@.subrange(0, i as int));
    true
}

/// The position of the first record named `name`.
pub fn find_index(rs: &Vec<Record>, name: &[u8]) -> (r: Option<usize>)
    ensures
        match r {
            Some(j) => is_first(records_view(rs@), name@, j as int),
            None => lookup(records_view(rs@), name@) is None && forall|j: int|
                0 <= j < rs@.len() ==> #[trigger] rs@[j].name@ != name@,
        },
{
    let ghost v = records_view(rs@);
    let mut i: usize = 0;
    while i < rs.len()
        invariant
            i <= rs@.len(),
            v == records_view(rs@),
            forall|k: int| 0 <= k < i ==> #[trigger] rs@[k].name@ != name@,
        decreases rs@.len() - i,
    {
        if bytes_eq(rs[i].name.as_slice(), name) {
            assert(forall|k: int| 0 <= k < i ==> v[k].0 == rs@[k].name@);
            return Some(i);
        }
        i = i + 1;
    }
    assert(forall|k: int| 0 <= k < rs@.len() ==> v[k].0 == rs@[k].name@);
    None
}

/// The next value of a change counter.
pub open spec fn next_generation(g: u64) -> u64 {
    if g == u64::MAX {
        0
    } else {
        (g + 1) as u64
    }
}

/// A single-slot broadcast of the latest change: a counter that moves on
/// every change, and the time of the latest one. Readers that slept through
/// several changes see only the latest.
#[derive(Clone, Copy, Debug, PartialEq, Eq, Structural)]
pub struct ChangeSignal {
    pub generation: u64,
    pub stamp: u64,
}

/// A reader's position on a `ChangeSignal`: the counter value it last saw.
#[derive(Clone, Copy, Debug, PartialEq, Eq, Structural)]
pub struct Watcher {
    pub seen: u64,
}

impl ChangeSignal {
    /// A watcher that has seen everything published so far.
    pub fn watch(&self) -> (w: Watcher)
        ensures
            w.seen == self.generation,
    {
        Watcher { seen: self.generation }
    }

    /// Whether anything was published since `w` last looked.
    pub fn has_changed(&self, w: &Watcher) -> (r: bool)
        ensures
            r == (self.generation != w.seen),
    {
        self.generation != w.seen
    }

    /// The latest published time; `w` is marked as having seen it.
    pub fn borrow_and_update(&self, w: &mut Watcher) -> (r: u64)
        ensures
            r == self.stamp,
            final(w).seen == self.generation,
    {
        w.seen = self.generation;
        self.stamp
    }

    /// Publishes a change made at time `now`.
    pub fn publish(&mut self, now: u64)
        ensures
            final(self).generation == next_generation(old(self).generation),
            final(self).stamp == now,
    {
        self.generation = if self.generation == u64::MAX {
            0
        } else {
            self.generation + 1
        };
        self.stamp = now;
    }
}

/// The in-memory store: the current value of each registered key, in
/// registration order, and the signal on which changes are published.
pub struct PersistencyStore {
    pub entries: Vec<Record>,
    pub signal: ChangeSignal,
}

impl PersistencyStore {
    pub open spec fn view(&self) -> Seq<(Seq<u8>, Seq<u8>)> {
        records_view(self.entries@)
    }

    /// Names are unique and every length fits the blob's length fields.
    pub open spec fn wf(&self) -> bool {
        unique_names(self@) && fits_u32(self@)
    }

    /// Builds the store for the registered `keys` from the bytes of the
    /// persisted file, which are empty for a new file. Each key takes its
    /// persisted value where the records that can be read hold one that
    /// decodes, and its default otherwise; only a non-empty file from which
    /// not one record can be read is an error.
    pub fn new(keys: &Vec<KeySpec>, source: &[u8]) -> (r: Result<PersistencyStore, PersistencyError>)
        requires
            unique_names(key_pairs(keys@)),
            fits_u32(key_pairs(keys@)),
        ensures
            match r {
                Ok(s) => loadable(source@) && s@ == load(keys@, readable_records(source@)) && s.wf()
                    && s.signal == (ChangeSignal { generation: 0, stamp: 0 }),
                Err(e) => !loadable(source@) && e == PersistencyError::DeserializeError,
            },
    {
        let parsed = read_records(source);
        if source.len() > 0 && parsed.len() == 0 {
            return Err(PersistencyError::DeserializeError);
        }
        let ghost pv = records_view(parsed@);
        let ghost kv = key_pairs(keys@);
        let ghost target = load(keys@, pv);
        proof {
            lemma_readable_fits(source@);
        }
        let mut entries: Vec<Record> = Vec::new();
        let mut i: usize = 0;
        while i < keys.len()
            invariant
                i <= keys@.len(),
                kv == key_pairs(keys@),
                pv == records_view(parsed@),
                target == load(keys@, pv),
                fits_u32(pv),
                fits_u32(kv),
                records_view(entries@) == target.take(i as int),
            decreases keys@.len() - i,
        {
            let key = &keys[i];
            let name = slice_to_vec(key.name.as_slice());
            let value = match find_index(&parsed, key.name.as_slice()) {
                Some(j) => {
                    proof {
                        lemma_lookup_at(pv, key.name@, j as int);
                    }
                    assert(pv[j as int] == (parsed@[j as int].name@, parsed@[j as int].value@));
                    if parsed[j].value.len() >= key.min_len {
                        slice_to_vec(parsed[j].value.as_slice())
                    } else {
                        slice_to_vec(key.default.as_slice())
                    }
                },
                None => slice_to_vec(key.default.as_slice()),
            };
            assert((name@, value@) == target[i as int]);
            let ghost before = entries@;
            let rec = Record { name, value };
            entries.push(rec);
            assert(entries@ == before.push(rec));
            assert(records_view(entries@) =~= records_view(before).push(target[i as int]));
            assert(target.take(i + 1) =~= target.take(i as int).push(target[i as int]));
            i = i + 1;
        }
        let s = PersistencyStore { entries, signal: ChangeSignal { generation: 0, stamp: 0 } };
        assert(target.take(i as int) =~= target);
        assert(s@ == target);
        assert(unique_names(s@)) by {
            assert forall|a: int, b: int| 0 <= a < s@.len() && 0 <= b < s@.len() && a != b
                implies s@[a].0 != s@[b].0 by {
                assert(s@[a].0 == kv[a].0 && s@[b].0 == kv[b].0);
            }
        }
        assert(fits_u32(s@)) by {
            assert forall|a: int| 0 <= a < s@.len() implies s@[a].0.len() <= u32::MAX
                && s@[a].1.len() <= u32::MAX by {
                assert(s@[a].0 == kv[a].0);
                assert(kv[a].1 == keys@[a].default@);
                match lookup(pv, keys@[a].name@) {
                    Some(v) => {
                        let c = choose|c: int| is_first(pv, keys@[a].name@, c);
                        assert(v == pv[c].1);
                    },
                    None => {},
                }
            }
        }
        Ok(s)
    }

    /// The stored bytes of `key`.
    pub fn get(&self, key: &str) -> (r: Result<Vec<u8>, PersistencyError>)
        ensures
            match lookup(self@, key.spec_bytes()) {
                Some(v) => r matches Ok(b) && b@ == v,
                None => r == Err::<Vec<u8>, PersistencyError>(PersistencyError::KeyNotFound),
            },
    {
        match find_index(&self.entries, key.as_bytes()) {
            Some(j) => {
                proof {
                    lemma_lookup_at(self@, key.spec_bytes(), j as int);
                }
                Ok(slice_to_vec(self.entries[j].value.as_slice()))
            },
            None => Err(PersistencyError::KeyNotFound),
        }
    }

    /// Replaces the stored bytes of `key` and publishes the change at time
    /// `now`; an unregistered key leaves the store as it was.
    pub fn set(&mut self, key: &str, value: Vec<u8>, now: u64) -> (r: Result<(), PersistencyError>)
        requires
            old(self).wf(),
            value@.len() <= u32::MAX,
        ensures
            final(self).wf(),
            match lookup(old(self)@, key.spec_bytes()) {
                Some(_) => r is Ok && final(self)@ == assign(old(self)@, key.spec_bytes(), value@)
                    && final(self).signal.generation == next_generation(old(self).signal.generation)
                    && final(self).signal.stamp == now,
                None => r == Err::<(), PersistencyError>(PersistencyError::KeyNotFound) && *final(self)
                    == *old(self),
            },
    {
        let name = key.as_bytes();
        match find_index(&self.entries, name) {
            Some(j) => {
                let ghost before = self@;
                let ghost v = value@;
                proof {
                    lemma_lookup_at(before, name@, j as int);
                }
                let rec = Record { name: slice_to_vec(name), value };
                self.entries.set(j, rec);
                self.signal.publish(now);
                assert(self@ =~= assign(before, name@, v)) by {
                    assert forall|k: int| 0 <= k < before.len() && k != j implies before[k].0
                        != name@ by {
                        assert(before[k].0 != before[j as int].0);
                    }
                }
                assert(fits_u32(self@)) by {
                    assert forall|k: int| 0 <= k < self@.len() implies self@[k].0.len() <= u32::MAX
                        && self@[k].1.len() <= u32::MAX by {
                        if k != j {
                            assert(self@[k] == before[k]);
                        }
                    }
                }
                assert(unique_names(self@)) by {
                    assert forall|a: int, b: int|
                        0 <= a < self@.len() && 0 <= b < self@.len() && a != b implies self@[a].0
                        != self@[b].0 by {
                        assert(self@[a].0 == before[a].0 && self@[b].0 == before[b].0);
                    }
                }
                Ok(())
            },
            None => Err(PersistencyError::KeyNotFound),
        }
    }

    /// The `u128` stored under `key`.
    pub fn get_u128(&self, key: &str) -> (r: Result<u128, PersistencyError>)
        ensures
            match lookup(self@, key.spec_bytes()) {
                Some(v) => if v.len() >= 16 {
                    r == Ok::<u128, PersistencyError>(u128_of_bytes(v))
                } else {
                    r == Err::<u128, PersistencyError>(PersistencyError::DeserializeError)
                },
                None => r == Err::<u128, PersistencyError>(PersistencyError::KeyNotFound),
            },
    {
        match self.get(key) {
            Ok(b) => match decode_u128(b.as_slice()) {
                Some(v) => Ok(v),
                None => Err(PersistencyError::DeserializeError),
            },
            Err(e) => Err(e),
        }
    }

    /// Stores `value` under `key` and publishes the change at time `now`.
    pub fn set_u128(&mut self, key: &str, value: u128, now: u64) -> (r: Result<(), PersistencyError>)
        requires
            old(self).wf(),
        ensures
            final(self).wf(),
            match lookup(old(self)@, key.spec_bytes()) {
                Some(_) => r is Ok && final(self)@ == assign(old(self)@, key.spec_bytes(), u128_bytes(value))
                    && final(self).signal.generation == next_generation(old(self).signal.generation)
                    && final(self).signal.stamp == now,
                None => r == Err::<(), PersistencyError>(PersistencyError::KeyNotFound) && *final(self)
                    == *old(self),
            },
    {
        let b = encode_u128(value);
        self.set(key, b, now)
    }

    /// The blob that holds every key with its current value.
    pub fn serialize_all(&self) -> (r: Vec<u8>)
        requires
            self.wf(),
        ensures
            r@ == encode_records(self@),
    {
        serialize_records(&self.entries)
    }
}

/// Reading back what was set gives the value that was set.
pub proof fn lemma_set_get_round_trip(s: Seq<(Seq<u8>, Seq<u8>)>, name: Seq<u8>, x: u128)
    requires
        unique_names(s),
        lookup(s, name) is Some,
    ensures
        lookup(assign(s, name, u128_bytes(x)), name) == Some(u128_bytes(x)),
        u128_of_bytes(u128_bytes(x)) == x,
{
    let j = choose|j: int| is_first(s, name, j);
    let t = assign(s, name, u128_bytes(x));
    assert(unique_names(t)) by {
        assert forall|a: int, b: int| 0 <= a < t.len() && 0 <= b < t.len() && a != b implies t[a].0
            != t[b].0 by {
            assert(t[a].0 == s[a].0 && t[b].0 == s[b].0);
        }
    }
    lemma_unique_first(t, name, j);
    crate::codec::lemma_u128_round_trip(x);
}

/// Each key is loaded on its own: one that the persisted records lack, or
/// whose persisted value does not decode, takes its registered default; one
/// whose persisted value decodes takes that value.
pub proof fn lemma_default_fallback(keys: Seq<KeySpec>, persisted: Seq<(Seq<u8>, Seq<u8>)>, i: int)
    requires
        0 <= i < keys.len(),
    ensures
        load(keys, persisted).len() == keys.len(),
        lookup(persisted, keys[i].name@) is None ==> load(keys, persisted)[i] == (
            keys[i].name@,
            keys[i].default@,
        ),
        forall|j: int|
            is_first(persisted, keys[i].name@, j) ==> load(keys, persisted)[i] == (
            keys[i].name@,
            if persisted[j].1.len() >= keys[i].min_len {
                persisted[j].1
            } else {
                keys[i].default@
            },
        ),
{
    assert forall|j: int| is_first(persisted, keys[i].name@, j) implies load(keys, persisted)[i]
        == (keys[i].name@, if persisted[j].1.len() >= keys[i].min_len {
        persisted[j].1
    } else {
        keys[i].default@
    }) by {
        lemma_lookup_at(persisted, keys[i].name@, j);
    }
}

/// Loading the blob of a store against a registry of the same names, in the
/// same order, gives the store back whatever the defaults, where each value
/// decodes for its key.
pub proof fn lemma_reload(keys: Seq<KeySpec>, s: Seq<(Seq<u8>, Seq<u8>)>)
    requires
        unique_names(s),
        fits_u32(s),
        keys.len() == s.len(),
        forall|i: int| 0 <= i < s.len() ==> #[trigger] keys[i].name@ == s[i].0,
        forall|i: int| 0 <= i < s.len() ==> s[i].1.len() >= #[trigger] keys[i].min_len,
    ensures
        loadable(encode_records(s)),
        readable_records(encode_records(s)) == s,
        load(keys, s) == s,
{
    lemma_records_round_trip(s);
    lemma_readable_of_parsed(encode_records(s));
    if s.len() > 0 {
        assert(encode_records(s).len() > 0);
    }
    assert forall|i: int| 0 <= i < s.len() implies #[trigger] load(keys, s)[i] == s[i] by {
        lemma_unique_first(s, s[i].0, i);
        assert(keys[i].name@ == s[i].0);
    }
    assert(load(keys, s) =~= s);
}

} // verus!
