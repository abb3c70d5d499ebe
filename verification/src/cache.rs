//! The cache store: a key-to-value map kept twice, once in memory and once
//! as a modelled on-disk mirror, with per-key lock markers and a single
//! pending-write slot serializing colliding writes for the same key.
//!
//! The mirror and the lock markers are modelled here as part of the store's
//! state; carrying them onto a real directory, and providing that directory,
//! is the shell's concern, as is the one coarse guard all callers share.

use vstd::prelude::*;
use crate::error::RemError;
use crate::scan::{after_first, before_first, first_index, lemma_first_index_properties};
use crate::text::{copy_range, str_eq};
use vstd::string::StrSliceExecFns;

verus! {

/// The command characters of an operation string: everything before the
/// first `$`.
pub open spec fn cmd_prefix(s: Seq<char>) -> Seq<char> {
    before_first(s, '$')
}

/// The value of an operation string: everything after the first `$`, empty
/// when there is none.
pub open spec fn op_value(s: Seq<char>) -> Seq<char> {
    after_first(s, '$')
}

/// A parsed operation: command characters and a value string.
/// Commands are represented by a single character each.
#[derive(Debug)]
pub struct CacheOperation {
    pub commands: Vec<char>,
    pub value: String,
}

impl CacheOperation {
    /// Splits an operation string at the first `$`: the characters before it
    /// are the commands, everything after it is the value. Without a `$` the
    /// whole string is commands and the value is empty.
    pub fn new_from_string(cache_op_str: &String) -> (r: CacheOperation)
        ensures
            r.commands@ == cmd_prefix(cache_op_str@),
            r.value@ == op_value(cache_op_str@),
    {
        let s = cache_op_str.as_str();
        let n = s.unicode_len();
        let ghost d = first_index(s@, '$');
        proof {
            lemma_first_index_properties(s@, '$');
        }
        let mut commands: Vec<char> = Vec::new();
        let mut i: usize = 0;
        while i < n
            invariant
                s@ == cache_op_str@,
                n == s@.len(),
                i <= n,
                d == first_index(s@, '$'),
                0 <= d <= s@.len(),
                d < s@.len() ==> s@[d] == '$',
                forall|j: int| 0 <= j < d ==> s@[j] != '$',
                forall|j: int| 0 <= j < i ==> s@[j] != '$',
                commands@ == s@.take(i as int),
            decreases n - i,
        {
            let c = s.get_char(i);
            if c == '$' {
                proof {
                    assert(i == d);
                }
                let value = s.substring_char(i + 1, n).to_owned();
                proof {
                    assert(value@ =~= op_value(cache_op_str@));
                }
                return CacheOperation { commands, value };
            }
            commands.push(c);
            proof {
                assert(commands@ =~= s@.take(i + 1));
            }
            i += 1;
        }
        proof {
            assert(d == s@.len());
            assert(commands@ =~= cmd_prefix(cache_op_str@));
            assert(op_value(cache_op_str@) == Seq::<char>::empty());
        }
        let value = String::new();
        CacheOperation { commands, value }
    }
}

/// One stored entry: a key and its value bytes.
#[derive(Debug, Clone)]
pub struct CachePair {
    pub key: String,
    pub val: Vec<u8>,
}

/// The mathematical content of an entry sequence: later entries win, though
/// under `unique_keys` no key occurs twice anyway.
pub open spec fn entries_map(s: Seq<CachePair>) -> Map<Seq<char>, Seq<u8>>
    decreases s.len(),
{
    if s.len() == 0 {
        Map::empty()
    } else {
        entries_map(s.drop_last()).insert(s.last().key@, s.last().val@)
    }
}

/// No two entries share a key.
pub open spec fn unique_keys(s: Seq<CachePair>) -> bool {
    forall|i: int, j: int| 0 <= i < j < s.len() ==> #[trigger] s[i].key@ != #[trigger] s[j].key@
}

pub proof fn lemma_entries_map_contains(s: Seq<CachePair>, k: Seq<char>)
    ensures
        entries_map(s).contains_key(k) <==> exists|i: int|
            0 <= i < s.len() && #[trigger] s[i].key@ == k,
    decreases s.len(),
{
    if s.len() > 0 {
        lemma_entries_map_contains(s.drop_last(), k);
        if entries_map(s).contains_key(k) {
            if s.last().key@ == k {
                assert(s[s.len() - 1].key@ == k);
            } else {
                let i = choose|i: int|
                    0 <= i < s.drop_last().len() && #[trigger] s.drop_last()[i].key@ == k;
                assert(s[i].key@ == k);
            }
        }
        if exists|i: int| 0 <= i < s.len() && #[trigger] s[i].key@ == k {
            let i = choose|i: int| 0 <= i < s.len() && #[trigger] s[i].key@ == k;
            if i < s.len() - 1 {
                assert(s.drop_last()[i].key@ == k);
            }
        }
    }
}

pub proof fn lemma_entries_map_get(s: Seq<CachePair>, i: int)
    requires
        unique_keys(s),
        0 <= i < s.len(),
    ensures
        entries_map(s).contains_key(s[i].key@),
        entries_map(s)[s[i].key@] == s[i].val@,
    decreases s.len(),
{
    if i < s.len() - 1 {
        lemma_entries_map_get(s.drop_last(), i);
        assert(s.drop_last()[i] == s[i]);
        assert(s[i].key@ != s.last().key@);
    }
}

pub proof fn lemma_entries_map_push(s: Seq<CachePair>, p: CachePair)
    ensures
        entries_map(s.push(p)) == entries_map(s).insert(p.key@, p.val@),
{
    assert(s.push(p).drop_last() =~= s);
    assert(s.push(p).last() == p);
}

pub proof fn lemma_entries_map_update(s: Seq<CachePair>, i: int, p: CachePair)
    requires
        unique_keys(s),
        0 <= i < s.len(),
        p.key@ == s[i].key@,
    ensures
        entries_map(s.update(i, p)) == entries_map(s).insert(p.key@, p.val@),
    decreases s.len(),
{
    let u = s.update(i, p);
    if i == s.len() - 1 {
        assert(u.drop_last() =~= s.drop_last());
        assert(u.last() == p);
        assert(entries_map(s).insert(p.key@, p.val@) =~= entries_map(s.drop_last()).insert(
            p.key@,
            p.val@,
        ));
    } else {
        assert(u.drop_last() =~= s.drop_last().update(i, p));
        assert(u.last() == s.last());
        assert(s.drop_last()[i] == s[i]);
        lemma_entries_map_update(s.drop_last(), i, p);
        assert(p.key@ != s.last().key@);
        assert(entries_map(s.drop_last()).insert(p.key@, p.val@).insert(
            s.last().key@,
            s.last().val@,
        ) =~= entries_map(s.drop_last()).insert(s.last().key@, s.last().val@).insert(
            p.key@,
            p.val@,
        ));
    }
}

pub proof fn lemma_entries_map_remove(s: Seq<CachePair>, i: int)
    requires
        unique_keys(s),
        0 <= i < s.len(),
    ensures
        entries_map(s.remove(i)) == entries_map(s).remove(s[i].key@),
    decreases s.len(),
{
    let k = s[i].key@;
    let r = s.remove(i);
    if i == s.len() - 1 {
        assert(r =~= s.drop_last());
        lemma_entries_map_contains(s.drop_last(), k);
        assert(forall|j: int| 0 <= j < s.drop_last().len() ==> #[trigger] s.drop_last()[j].key@
            != k);
        assert(!entries_map(s.drop_last()).contains_key(k));
        assert(entries_map(s.drop_last()).insert(k, s.last().val@).remove(k) =~= entries_map(
            s.drop_last(),
        ));
    } else {
        assert(r.drop_last() =~= s.drop_last().remove(i));
        assert(r.last() == s.last());
        assert(s.drop_last()[i] == s[i]);
        lemma_entries_map_remove(s.drop_last(), i);
        assert(k != s.last().key@);
        assert(entries_map(s.drop_last()).remove(k).insert(s.last().key@, s.last().val@)
            =~= entries_map(s.drop_last()).insert(s.last().key@, s.last().val@).remove(k));
    }
}

/// An association list holding at most one entry per key, viewed as a map
/// from character sequences to byte sequences.
#[derive(Debug, Clone)]
pub struct KvStore {
    pub entries: Vec<CachePair>,
}

impl View for KvStore {
    type V = Map<Seq<char>, Seq<u8>>;

    open spec fn view(&self) -> Map<Seq<char>, Seq<u8>> {
        entries_map(self.entries@)
    }
}

impl KvStore {
    /// Each key occurs at most once.
    pub open spec fn wf(&self) -> bool {
        unique_keys(self.entries@)
    }

    pub fn new() -> (r: KvStore)
        ensures
            r.wf(),
            r@ == Map::<Seq<char>, Seq<u8>>::empty(),
    {
        KvStore { entries: Vec::new() }
    }

    /// Index of the entry holding `key`, if one does.
    fn find(&self, key: &str) -> (r: Option<usize>)
        ensures
            ({
                match r {
                    Some(i) => i < self.entries@.len() && self.entries@[i as int].key@ == key@,
                    None => forall|i: int|
                        0 <= i < self.entries@.len() ==> #[trigger] self.entries@[i].key@ != key@,
                }
            }),
    {
        let mut i: usize = 0;
        while i < self.entries.len()
            invariant
                i <= self.entries@.len(),
                forall|j: int| 0 <= j < i ==> #[trigger] self.entries@[j].key@ != key@,
            decreases self.entries@.len() - i,
        {
            if str_eq(self.entries[i].key.as_str(), key) {
                return Some(i);
            }
            i += 1;
        }
        None
    }

    pub fn contains_key(&self, key: &str) -> (r: bool)
        ensures
            r == self@.contains_key(key@),
    {
        proof {
            lemma_entries_map_contains(self.entries@, key@);
        }
        self.find(key).is_some()
    }

    /// The value stored under `key`, if any.
    pub fn get(&self, key: &str) -> (r: Option<&Vec<u8>>)
        requires
            self.wf(),
        ensures
            ({
                match r {
                    Some(v) => self@.contains_key(key@) && v@ == self@[key@],
                    None => !self@.contains_key(key@),
                }
            }),
    {
        proof {
            lemma_entries_map_contains(self.entries@, key@);
        }
        match self.find(key) {
            Some(i) => {
                proof {
                    lemma_entries_map_get(self.entries@, i as int);
                }
                Some(&self.entries[i].val)
            },
            None => None,
        }
    }

    /// Stores `val` under `key`, replacing any previous value.
    pub fn insert(&mut self, key: &str, val: Vec<u8>)
        requires
            old(self).wf(),
        ensures
            final(self).wf(),
            final(self)@ == old(self)@.insert(key@, val@),
    {
        match self.find(key) {
            Some(i) => {
                let p = CachePair { key: key.to_owned(), val };
                proof {
                    lemma_entries_map_update(self.entries@, i as int, p);
                }
                self.entries.set(i, p);
                proof {
                    assert forall|a: int, b: int|
                        0 <= a < b < self.entries@.len() implies #[trigger] self.entries@[a].key@
                        != #[trigger] self.entries@[b].key@ by {
                        assert(old(self).entries@[a].key@ != old(self).entries@[b].key@);
                    }
                }
            },
            None => {
                let p = CachePair { key: key.to_owned(), val };
                proof {
                    lemma_entries_map_push(self.entries@, p);
                }
                self.entries.push(p);
                proof {
                    assert forall|a: int, b: int|
                        0 <= a < b < self.entries@.len() implies #[trigger] self.entries@[a].key@
                        != #[trigger] self.entries@[b].key@ by {
                        if b < self.entries@.len() - 1 {
                            assert(old(self).entries@[a].key@ != old(self).entries@[b].key@);
                        } else {
                            assert(old(self).entries@[a].key@ != key@);
                        }
                    }
                }
            },
        }
    }

    /// Removes the entry stored under `key`, if any.
    pub fn remove(&mut self, key: &str)
        requires
            old(self).wf(),
        ensures
            final(self).wf(),
            final(self)@ == old(self)@.remove(key@),
    {
        match self.find(key) {
            Some(i) => {
                proof {
                    lemma_entries_map_remove(self.entries@, i as int);
                }
                self.entries.remove(i);
                proof {
                    assert forall|a: int, b: int|
                        0 <= a < b < self.entries@.len() implies #[trigger] self.entries@[a].key@
                        != #[trigger] self.entries@[b].key@ by {
                        let oa = if a < i as int { a } else { a + 1 };
                        let ob = if b < i as int { b } else { b + 1 };
                        assert(self.entries@[a] == old(self).entries@[oa]);
                        assert(self.entries@[b] == old(self).entries@[ob]);
                        assert(old(self).entries@[oa].key@ != old(self).entries@[ob].key@);
                    }
                }
            },
            None => {
                proof {
                    lemma_entries_map_contains(self.entries@, key@);
                    assert(old(self)@ =~= old(self)@.remove(key@));
                }
            },
        }
    }
}

/// The set of keys a sequence of lock-marker names stands for.
pub open spec fn lock_set(s: Seq<String>) -> Set<Seq<char>>
    decreases s.len(),
{
    if s.len() == 0 {
        Set::empty()
    } else {
        lock_set(s.drop_last()).insert(s.last()@)
    }
}

/// No lock-marker name occurs twice.
pub open spec fn unique_strings(s: Seq<String>) -> bool {
    forall|i: int, j: int| 0 <= i < j < s.len() ==> #[trigger] s[i]@ != #[trigger] s[j]@
}

pub proof fn lemma_lock_set_contains(s: Seq<String>, k: Seq<char>)
    ensures
        lock_set(s).contains(k) <==> exists|i: int| 0 <= i < s.len() && #[trigger] s[i]@ == k,
    decreases s.len(),
{
    if s.len() > 0 {
        lemma_lock_set_contains(s.drop_last(), k);
        if lock_set(s).contains(k) {
            if s.last()@ == k {
                assert(s[s.len() - 1]@ == k);
            } else {
                let i = choose|i: int|
                    0 <= i < s.drop_last().len() && #[trigger] s.drop_last()[i]@ == k;
                assert(s[i]@ == k);
            }
        }
        if exists|i: int| 0 <= i < s.len() && #[trigger] s[i]@ == k {
            let i = choose|i: int| 0 <= i < s.len() && #[trigger] s[i]@ == k;
            if i < s.len() - 1 {
                assert(s.drop_last()[i]@ == k);
            }
        }
    }
}

pub proof fn lemma_lock_set_push(s: Seq<String>, x: String)
    ensures
        lock_set(s.push(x)) == lock_set(s).insert(x@),
{
    assert(s.push(x).drop_last() =~= s);
    assert(s.push(x).last() == x);
}

pub proof fn lemma_lock_set_remove(s: Seq<String>, i: int)
    requires
        unique_strings(s),
        0 <= i < s.len(),
    ensures
        lock_set(s.remove(i)) == lock_set(s).remove(s[i]@),
    decreases s.len(),
{
    let k = s[i]@;
    let r = s.remove(i);
    if i == s.len() - 1 {
        assert(r =~= s.drop_last());
        lemma_lock_set_contains(s.drop_last(), k);
        assert(forall|j: int| 0 <= j < s.drop_last().len() ==> #[trigger] s.drop_last()[j]@ != k);
        assert(!lock_set(s.drop_last()).contains(k));
        assert(lock_set(s.drop_last()).insert(k).remove(k) =~= lock_set(s.drop_last()));
    } else {
        assert(r.drop_last() =~= s.drop_last().remove(i));
        assert(r.last() == s.last());
        assert(s.drop_last()[i] == s[i]);
        lemma_lock_set_remove(s.drop_last(), i);
        assert(k != s.last()@);
        assert(lock_set(s.drop_last()).remove(k).insert(s.last()@) =~= lock_set(
            s.drop_last(),
        ).insert(s.last()@).remove(k));
    }
}

/// The mathematical state of the whole store: the in-memory map, the on-disk
/// mirror, the keys whose lock marker exists, and the single pending-write
/// slot.
#[verifier::ext_equal]
pub struct CacheModel {
    pub mem: Map<Seq<char>, Seq<u8>>,
    pub disk: Map<Seq<char>, Seq<u8>>,
    pub locks: Set<Seq<char>>,
    pub pending: Option<(Seq<char>, Seq<u8>)>,
}

/// A store holding nothing at all.
pub open spec fn empty_model() -> CacheModel {
    CacheModel { mem: Map::empty(), disk: Map::empty(), locks: Set::empty(), pending: None }
}

/// Writing a value under a key puts it in the memory map and the mirror.
pub open spec fn store_write(m: CacheModel, k: Seq<char>, v: Seq<u8>) -> CacheModel {
    CacheModel { mem: m.mem.insert(k, v), disk: m.disk.insert(k, v), ..m }
}

/// One `put`, as the store performs it. A write whose key is locked is only
/// queued in the pending slot, displacing whatever was queued before.
/// Otherwise the value is written to memory and mirror, and a queued pending
/// write is then replayed the same way: written if its key is free, left
/// queued if its key is still locked.
pub open spec fn cache_put(m: CacheModel, k: Seq<char>, v: Seq<u8>) -> CacheModel {
    if m.locks.contains(k) {
        CacheModel { pending: Some((k, v)), ..m }
    } else {
        let m1 = store_write(m, k, v);
        match m.pending {
            None => m1,
            Some((pk, pv)) => if m.locks.contains(pk) {
                m1
            } else {
                CacheModel { pending: None, ..store_write(m1, pk, pv) }
            },
        }
    }
}

/// One `get`: the in-memory value if present, the mirrored one otherwise.
pub open spec fn cache_get(m: CacheModel, k: Seq<char>) -> Option<Seq<u8>> {
    if m.mem.contains_key(k) {
        Some(m.mem[k])
    } else if m.disk.contains_key(k) {
        Some(m.disk[k])
    } else {
        None
    }
}

/// One `delete`: the key leaves both the memory map and the mirror.
pub open spec fn cache_delete(m: CacheModel, k: Seq<char>) -> CacheModel {
    CacheModel { mem: m.mem.remove(k), disk: m.disk.remove(k), ..m }
}

/// A put never touches the lock-marker set.
pub proof fn lemma_put_keeps_locks(m: CacheModel, k: Seq<char>, v: Seq<u8>)
    ensures
        cache_put(m, k, v).locks == m.locks,
{
}

/// Cache idempotence of overwrite: writing a key twice leaves the second
/// value readable, whatever was pending before, provided no write for that
/// key was already in flight.
pub proof fn lemma_overwrite(m: CacheModel, k: Seq<char>, v1: Seq<u8>, v2: Seq<u8>)
    requires
        !m.locks.contains(k),
    ensures
        cache_get(cache_put(cache_put(m, k, v1), k, v2), k) == Some(v2),
{
    let m1 = cache_put(m, k, v1);
    let m2 = cache_put(m1, k, v2);
    lemma_put_keeps_locks(m, k, v1);
    if m1.pending is Some {
        let (pk, pv) = m1.pending->0;
        assert(m1.locks.contains(pk));
        assert(pk != k);
    }
}

/// Delete-then-read: after a write and then a delete of the same key, a read
/// of it finds nothing.
pub proof fn lemma_delete_then_read(m: CacheModel, k: Seq<char>, v: Seq<u8>)
    ensures
        cache_get(cache_delete(cache_put(m, k, v), k), k) == None::<Seq<u8>>,
{
}

/// Read of an absent key: on an empty store every read misses.
pub proof fn lemma_read_absent(k: Seq<char>)
    ensures
        cache_get(empty_model(), k) == None::<Seq<u8>>,
{
}

/// Write collision serialization: two writes to the same key, serialized in
/// either order by the store's guard, leave one of the two written values —
/// never anything else — as the stored value.
pub proof fn lemma_write_collision(m: CacheModel, k: Seq<char>, v1: Seq<u8>, v2: Seq<u8>)
    requires
        !m.locks.contains(k),
    ensures
        cache_get(cache_put(cache_put(m, k, v1), k, v2), k) == Some(v2) || cache_get(
            cache_put(cache_put(m, k, v1), k, v2),
            k,
        ) == Some(v1),
{
    lemma_overwrite(m, k, v1, v2);
}

/// The cache: an in-memory map, the modelled on-disk mirror, the live lock
/// markers, and the single pending-write slot.
///
/// The pending slot is deliberately one for the whole store, not one per
/// key: a second colliding write, for any key, displaces what was queued
/// before — a known weak point of this design, kept as it is. The queued
/// pair carries its own key, so a replay always lands on the key it was
/// queued for.
#[derive(Debug, Clone)]
pub struct Cache {
    pub map_internal: KvStore,
    pub disk: KvStore,
    pub locks: Vec<String>,
    pub pending: Option<CachePair>,
}

impl View for Cache {
    type V = CacheModel;

    open spec fn view(&self) -> CacheModel {
        CacheModel {
            mem: self.map_internal@,
            disk: self.disk@,
            locks: lock_set(self.locks@),
            pending: match self.pending {
                None => None,
                Some(p) => Some((p.key@, p.val@)),
            },
        }
    }
}

impl Cache {
    /// Both maps hold each key at most once, as does the lock list.
    pub open spec fn wf(&self) -> bool {
        self.map_internal.wf() && self.disk.wf() && unique_strings(self.locks@)
    }

    pub fn new() -> (r: Cache)
        ensures
            r.wf(),
            r@ == empty_model(),
    {
        let r = Cache { map_internal: KvStore::new(), disk: KvStore::new(), locks: Vec::new(), pending: None };
        proof {
            assert(r@ =~= empty_model());
        }
        r
    }

    /// Index of the lock marker for the key, if one exists.
    fn find_lock(&self, key: &str) -> (r: Option<usize>)
        ensures
            ({
                match r {
                    Some(i) => i < self.locks@.len() && self.locks@[i as int]@ == key@,
                    None => forall|j: int|
                        0 <= j < self.locks@.len() ==> #[trigger] self.locks@[j]@ != key@,
                }
            }),
    {
        let mut i: usize = 0;
        while i < self.locks.len()
            invariant
                i <= self.locks@.len(),
                forall|j: int| 0 <= j < i ==> #[trigger] self.locks@[j]@ != key@,
            decreases self.locks@.len() - i,
        {
            if str_eq(self.locks[i].as_str(), key) {
                return Some(i);
            }
            i += 1;
        }
        None
    }

    /// Whether a lock marker exists for the key.
    pub fn lock_exists(&self, key: &str) -> (r: bool)
        ensures
            r == self@.locks.contains(key@),
    {
        proof {
            lemma_lock_set_contains(self.locks@, key@);
        }
        self.find_lock(key).is_some()
    }

    /// Creates the lock marker for the key; the marked set gains the key.
    pub fn create_lock_file(&mut self, key: &str) -> (r: Result<(), RemError>)
        requires
            old(self).wf(),
        ensures
            final(self).wf(),
            r is Ok,
            final(self)@ == (CacheModel { locks: old(self)@.locks.insert(key@), ..old(self)@ }),
    {
        if !self.lock_exists(key) {
            let owned = key.to_owned();
            proof {
                lemma_lock_set_push(self.locks@, owned);
            }
            self.locks.push(owned);
            proof {
                lemma_lock_set_contains(old(self).locks@, key@);
                assert forall|a: int, b: int| 0 <= a < b < self.locks@.len() implies #[trigger] self
                    .locks@[a]@ != #[trigger] self.locks@[b]@ by {
                    if b < self.locks@.len() - 1 {
                        assert(old(self).locks@[a]@ != old(self).locks@[b]@);
                    } else {
                        assert(old(self).locks@[a]@ != key@);
                    }
                }
                assert(self@ =~= (CacheModel {
                    locks: old(self)@.locks.insert(key@),
                    ..old(self)@
                }));
            }
        } else {
            proof {
                assert(old(self)@.locks.insert(key@) =~= old(self)@.locks);
                assert(self@ =~= (CacheModel {
                    locks: old(self)@.locks.insert(key@),
                    ..old(self)@
                }));
            }
        }
        Ok(())
    }

    /// Deletes the lock marker for the key; the marked set loses the key.
    pub fn delete_lock_file(&mut self, key: &str) -> (r: Result<(), RemError>)
        requires
            old(self).wf(),
        ensures
            final(self).wf(),
            r is Ok,
            final(self)@ == (CacheModel { locks: old(self)@.locks.remove(key@), ..old(self)@ }),
    {
        match self.find_lock(key) {
            Some(i) => {
                proof {
                    lemma_lock_set_remove(self.locks@, i as int);
                }
                self.locks.remove(i);
                proof {
                    assert forall|a: int, b: int|
                        0 <= a < b < self.locks@.len() implies #[trigger] self.locks@[a]@
                        != #[trigger] self.locks@[b]@ by {
                        let oa = if a < i as int { a } else { a + 1 };
                        let ob = if b < i as int { b } else { b + 1 };
                        assert(self.locks@[a] == old(self).locks@[oa]);
                        assert(self.locks@[b] == old(self).locks@[ob]);
                        assert(old(self).locks@[oa]@ != old(self).locks@[ob]@);
                    }
                    assert(self@ =~= (CacheModel {
                        locks: old(self)@.locks.remove(key@),
                        ..old(self)@
                    }));
                }
            },
            None => {
                proof {
                    lemma_lock_set_contains(self.locks@, key@);
                    assert(!old(self)@.locks.contains(key@));
                    assert(old(self)@.locks.remove(key@) =~= old(self)@.locks);
                    assert(self@ =~= (CacheModel {
                        locks: old(self)@.locks.remove(key@),
                        ..old(self)@
                    }));
                }
            },
        }
        Ok(())
    }

    /// Writes the value to the cache under the key, to the in-memory map and
    /// the mirror both, creating the key's lock marker first and deleting it
    /// after. A write whose key is already locked is only queued in the
    /// pending slot and applied by a later write; a queued pending write is
    /// replayed after this one completes.
    pub fn cache_item(&mut self, key: &str, val: Vec<u8>) -> (r: Result<(), RemError>)
        requires
            old(self).wf(),
        ensures
            final(self).wf(),
            r is Ok,
            final(self)@ == cache_put(old(self)@, key@, val@),
    {
        let ghost m0 = old(self)@;
        if self.lock_exists(key) {
            self.pending = Some(CachePair { key: key.to_owned(), val });
            proof {
                assert(self@ =~= cache_put(m0, key@, val@));
            }
            return Ok(());
        }
        self.create_lock_file(key)?;
        let val_mirror = copy_range(&val, 0, val.len());
        proof {
            assert(val_mirror@ =~= val@);
        }
        self.disk.insert(key, val_mirror);
        self.map_internal.insert(key, val);
        self.delete_lock_file(key)?;
        proof {
            assert(self@.locks =~= m0.locks);
            assert(self@ =~= store_write(m0, key@, val@));
        }
        let ghost m1 = self@;
        match self.pending.take() {
            None => {
                proof {
                    assert(self@ =~= cache_put(m0, key@, val@));
                }
            },
            Some(pair) => {
                let CachePair { key: pkey, val: pval } = pair;
                if self.lock_exists(pkey.as_str()) {
                    self.pending = Some(CachePair { key: pkey, val: pval });
                    proof {
                        assert(self@ =~= m1);
                        assert(self@ =~= cache_put(m0, key@, val@));
                    }
                } else {
                    self.create_lock_file(pkey.as_str())?;
                    let pval_mirror = copy_range(&pval, 0, pval.len());
                    proof {
                        assert(pval_mirror@ =~= pval@);
                    }
                    self.disk.insert(pkey.as_str(), pval_mirror);
                    self.map_internal.insert(pkey.as_str(), pval);
                    self.delete_lock_file(pkey.as_str())?;
                    proof {
                        assert(self@.locks =~= m1.locks);
                        assert(self@ =~= (CacheModel {
                            pending: None,
                            ..store_write(m1, pkey@, pval@)
                        }));
                        assert(self@ =~= cache_put(m0, key@, val@));
                    }
                }
            },
        }
        Ok(())
    }

    /// Reads a value from the cache: the in-memory value when the key is in
    /// the map, the mirrored one otherwise, or nothing when neither holds
    /// the key. A mirror hit does not repopulate the in-memory map, and no
    /// read consults the lock markers: a value may be read while a write for
    /// its key is still queued.
    pub fn read_item(&self, key: String) -> (r: Result<Option<Box<Vec<u8>>>, RemError>)
        requires
            self.wf(),
        ensures
            ({
                match cache_get(self@, key@) {
                    Some(v) => r matches Ok(x) && x matches Some(b) && b@ == v,
                    None => r matches Ok(x) && x is None,
                }
            }),
    {
        match self.map_internal.get(key.as_str()) {
            Some(v) => {
                let c = copy_range(v, 0, v.len());
                proof {
                    assert(c@ =~= v@);
                }
                Ok(Some(Box::new(c)))
            },
            None => match self.disk.get(key.as_str()) {
                Some(v) => {
                    let c = copy_range(v, 0, v.len());
                    proof {
                        assert(c@ =~= v@);
                    }
                    Ok(Some(Box::new(c)))
                },
                None => Ok(None),
            },
        }
    }

    /// Deletes an item from the cache: the key leaves the in-memory map and
    /// the mirror both. Deleting an absent key succeeds and changes nothing.
    pub fn delete_item(&mut self, key: String) -> (r: Result<(), RemError>)
        requires
            old(self).wf(),
        ensures
            final(self).wf(),
            r is Ok,
            final(self)@ == cache_delete(old(self)@, key@),
    {
        self.map_internal.remove(key.as_str());
        self.disk.remove(key.as_str());
        proof {
            assert(self@ =~= cache_delete(old(self)@, key@));
        }
        Ok(())
    }
}

} // verus!
