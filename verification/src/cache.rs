//! A time-bounded cache keyed by text: an entry answers lookups while it is
//! at most `CACHE_TTL_NANOS` old (strict lookups: while it is younger than
//! that), and a store drops every entry that has reached that age. The
//! cache's clock never reads earlier than the latest stamp it stored.

use vstd::prelude::*;
use crate::policy::CACHE_TTL_NANOS;
use crate::types::{Candidate, copy_candidates, models};

verus! {

#[verifier::external_type_specification]
#[verifier::external_body]
pub struct ExInstant(std::time::Instant);

/// The current moment of the monotonic clock, through `Instant::now`.
#[verifier::external_body]
fn instant_now() -> (r: std::time::Instant) {
    std::time::Instant::now()
}

/// Nanoseconds since `since` by the monotonic clock, through
/// `Instant::elapsed` (the `Duration` is read with `as_nanos`). The value
/// depends on the clock, so nothing is promised of it.
#[verifier::external_body]
fn elapsed_nanos(since: &std::time::Instant) -> (r: u128) {
    since.elapsed().as_nanos()
}

/// Age of an entry stored at `stamp`, read at `now` (never negative).
pub open spec fn age(stamp: u128, now: u128) -> int {
    if now >= stamp { now - stamp } else { 0 }
}

/// What a lookup of `key` at `now` answers from the table `t`: the stored
/// value while it is at most the time-to-live old.
pub open spec fn lookup_spec<V>(t: Map<Seq<char>, (u128, V)>, key: Seq<char>, now: u128) -> Option<V> {
    if t.contains_key(key) && age(t[key].0, now) <= CACHE_TTL_NANOS {
        Some(t[key].1)
    } else {
        None
    }
}

/// What a strict lookup of `key` at `now` answers from the table `t`: the
/// stored value while it is younger than the time-to-live.
pub open spec fn lookup_young_spec<V>(t: Map<Seq<char>, (u128, V)>, key: Seq<char>, now: u128) -> Option<V> {
    if t.contains_key(key) && age(t[key].0, now) < CACHE_TTL_NANOS {
        Some(t[key].1)
    } else {
        None
    }
}

/// The table after storing `value` under `key` at `now`: entries that have
/// reached the time-to-live are dropped, then `key` maps to the new value.
pub open spec fn store_spec<V>(t: Map<Seq<char>, (u128, V)>, key: Seq<char>, value: V, now: u128) -> Map<Seq<char>, (u128, V)> {
    Map::new(
        |k: Seq<char>| t.contains_key(k) && age(t[k].0, now) < CACHE_TTL_NANOS,
        |k: Seq<char>| t[k],
    ).insert(key, (now, value))
}

/// The value behind an optional reference.
pub open spec fn deref_opt<V>(r: Option<&V>) -> Option<V> {
    match r {
        Some(v) => Some(*v),
        None => None,
    }
}

fn find_entry<V>(v: &Vec<CacheEntry<V>>, key: &String) -> (r: Option<usize>)
    ensures
        match r {
            Some(i) => i < v@.len() && v@[i as int].key@ == key@,
            None => !has_key(v@, key@),
        },
{
    let mut i: usize = 0;
    while i < v.len()
        invariant
            i <= v@.len(),
            forall|j: int| 0 <= j < i ==> v@[j].key@ != key@,
        decreases v@.len() - i,
    {
        if v[i].key == *key {
            return Some(i);
        }
        i += 1;
    }
    None
}

struct CacheEntry<V> {
    key: String,
    stamp: u128,
    value: V,
}

/// A cache of values by text key, each with the moment it was stored.
pub struct TtlCache<V> {
    origin: std::time::Instant,
    entries: Vec<CacheEntry<V>>,
    /// The latest moment at which anything was stored.
    latest: u128,
}

spec fn keys_distinct<V>(s: Seq<CacheEntry<V>>) -> bool {
    forall|i: int, j: int| 0 <= i < s.len() && 0 <= j < s.len() && i != j ==> s[i].key@ != s[j].key@
}

spec fn has_key<V>(s: Seq<CacheEntry<V>>, k: Seq<char>) -> bool {
    exists|i: int| 0 <= i < s.len() && s[i].key@ == k
}

spec fn key_index<V>(s: Seq<CacheEntry<V>>, k: Seq<char>) -> int {
    choose|i: int| 0 <= i < s.len() && s[i].key@ == k
}

spec fn entries_table<V>(s: Seq<CacheEntry<V>>) -> Map<Seq<char>, (u128, V)> {
    Map::new(
        |k: Seq<char>| has_key(s, k),
        |k: Seq<char>| (s[key_index(s, k)].stamp, s[key_index(s, k)].value),
    )
}

proof fn lemma_entry_in_table<V>(s: Seq<CacheEntry<V>>, i: int)
    requires
        keys_distinct(s),
        0 <= i < s.len(),
    ensures
        entries_table(s).contains_key(s[i].key@),
        entries_table(s)[s[i].key@] == (s[i].stamp, s[i].value),
{
    let k = s[i].key@;
    assert(has_key(s, k));
    let j = key_index(s, k);
    assert(s[j].key@ == k);
    assert(j == i);
}

impl<V> TtlCache<V> {
    #[verifier::type_invariant]
    spec fn well_formed(self) -> bool {
        &&& keys_distinct(self.entries@)
        &&& forall|i: int| 0 <= i < self.entries@.len() ==> #[trigger] self.entries@[i].stamp <= self.latest
    }

    /// The latest moment at which a value was stored (0 before any store):
    /// no stored stamp is later.
    pub closed spec fn latest(self) -> u128 {
        self.latest
    }

    /// The stored entries: key to (stamp in nanoseconds, value).
    pub closed spec fn table(self) -> Map<Seq<char>, (u128, V)> {
        entries_table(self.entries@)
    }

    /// A cache holds finitely many entries.
    pub proof fn lemma_table_finite(&self)
        ensures
            self.table().dom().finite(),
    {
        let keys = self.entries@.map_values(|e: CacheEntry<V>| e.key@);
        assert forall|k: Seq<char>| self.table().dom().contains(k) implies keys.to_set().contains(k) by {
            let i = key_index(self.entries@, k);
            assert(keys[i] == k);
        }
        vstd::seq_lib::seq_to_set_is_finite(keys);
        vstd::set_lib::lemma_len_subset(self.table().dom(), keys.to_set());
    }

    /// An empty cache whose clock starts now.
    pub fn new() -> (r: Self)
        ensures
            r.table() == Map::<Seq<char>, (u128, V)>::empty(),
            r.latest() == 0,
    {
        let r = TtlCache { origin: instant_now(), entries: Vec::new(), latest: 0 };
        assert(r.table() =~= Map::<Seq<char>, (u128, V)>::empty());
        r
    }

    /// Nanoseconds since the cache was created, by the monotonic clock. The
    /// clock never runs backwards (as `Instant` is documented), so a reading
    /// is never before a stamp already stored; a reading below the latest
    /// stamp is taken as that stamp.
    pub fn now_nanos(&self) -> (r: u128)
        ensures
            r >= self.latest(),
            forall|k: Seq<char>| #[trigger] self.table().contains_key(k) ==> self.table()[k].0 <= r,
    {
        proof {
            use_type_invariant(self);
            assert forall|k: Seq<char>| #[trigger] self.table().contains_key(k) implies self.table()[k].0 <= self.latest by {
                let i = key_index(self.entries@, k);
                lemma_entry_in_table(self.entries@, i);
            }
        }
        let reading = elapsed_nanos(&self.origin);
        if reading < self.latest { self.latest } else { reading }
    }

    /// The value stored under `key` if it is at most the time-to-live old at
    /// `now` (nanoseconds on this cache's clock).
    pub fn lookup_at(&self, key: &str, now: u128) -> (r: Option<&V>)
        ensures
            deref_opt(r) == lookup_spec(self.table(), key@, now),
    {
        proof { use_type_invariant(self); }
        let k = key.to_owned();
        match find_entry(&self.entries, &k) {
            Some(i) => {
                proof { lemma_entry_in_table(self.entries@, i as int); }
                let e = &self.entries[i];
                let a = if now >= e.stamp { now - e.stamp } else { 0 };
                if a > CACHE_TTL_NANOS {
                    None
                } else {
                    Some(&e.value)
                }
            },
            None => None,
        }
    }

    /// The value stored under `key` if it is younger than the time-to-live
    /// at `now` (nanoseconds on this cache's clock).
    pub fn lookup_young_at(&self, key: &str, now: u128) -> (r: Option<&V>)
        ensures
            deref_opt(r) == lookup_young_spec(self.table(), key@, now),
    {
        proof { use_type_invariant(self); }
        let k = key.to_owned();
        match find_entry(&self.entries, &k) {
            Some(i) => {
                proof { lemma_entry_in_table(self.entries@, i as int); }
                let e = &self.entries[i];
                let a = if now >= e.stamp { now - e.stamp } else { 0 };
                if a < CACHE_TTL_NANOS {
                    Some(&e.value)
                } else {
                    None
                }
            },
            None => None,
        }
    }

    /// Stores `value` under `key` at `now` (nanoseconds on this cache's
    /// clock), first dropping every entry that has reached the time-to-live.
    pub fn store_at(&mut self, key: String, value: V, now: u128)
        ensures
            final(self).table() == store_spec(old(self).table(), key@, value, now),
            final(self).latest() == (if now > old(self).latest() { now } else { old(self).latest() }),
    {
        proof { use_type_invariant(&*self); }
        let ghost old_entries = self.entries@;
        let ghost old_latest = self.latest;
        let mut pending: Vec<CacheEntry<V>> = Vec::new();
        std::mem::swap(&mut pending, &mut self.entries);
        let mut kept: Vec<CacheEntry<V>> = Vec::new();
        // positions in the old entries of what `kept` holds
        let ghost mut idx: Seq<int> = Seq::empty();
        let ghost n = old_entries.len() as int;
        // `pending` is emptied from the back; what is young enough moves to `kept`
        while pending.len() > 0
            invariant
                n == old_entries.len(),
                forall|i: int| 0 <= i < n ==> #[trigger] old_entries[i].stamp <= old_latest,
                pending@.len() <= n,
                keys_distinct(old_entries),
                pending@ == old_entries.subrange(0, pending@.len() as int),
                idx.len() == kept@.len(),
                forall|i: int| 0 <= i < kept@.len() ==> pending@.len() <= #[trigger] idx[i] < n
                    && kept@[i] == old_entries[idx[i]] && age(kept@[i].stamp, now) < CACHE_TTL_NANOS,
                forall|i: int, j: int| 0 <= i < j < kept@.len() ==> idx[i] > idx[j],
                forall|j: int| pending@.len() <= j < n && age(old_entries[j].stamp, now) < CACHE_TTL_NANOS
                    ==> exists|i: int| 0 <= i < kept@.len() && #[trigger] idx[i] == j,
            decreases pending@.len(),
        {
            let e = pending.pop().unwrap();
            let ghost p = pending@.len() as int;
            proof {
                assert(e == old_entries[p]);
            }
            let a = if now >= e.stamp { now - e.stamp } else { 0 };
            if a < CACHE_TTL_NANOS {
                let ghost before = idx;
                kept.push(e);
                proof {
                    idx = idx.push(p);
                    assert forall|j: int| p <= j < n && age(old_entries[j].stamp, now) < CACHE_TTL_NANOS
                        implies exists|i: int| 0 <= i < kept@.len() && #[trigger] idx[i] == j by {
                        if j == p {
                            assert(idx[idx.len() - 1] == p);
                        } else {
                            let i = choose|i: int| 0 <= i < before.len() && #[trigger] before[i] == j;
                            assert(idx[i] == j);
                        }
                    }
                }
            }
            proof {
                assert(pending@ =~= old_entries.subrange(0, p));
            }
        }
        proof {
            assert forall|i: int, j: int| 0 <= i < kept@.len() && 0 <= j < kept@.len() && i != j
                implies kept@[i].key@ != kept@[j].key@ by {
                assert(idx[i] != idx[j]);
            }
        }
        let ghost t_kept = entries_table(kept@);
        proof {
            let want = Map::new(
                |k: Seq<char>| entries_table(old_entries).contains_key(k) && age(entries_table(old_entries)[k].0, now) < CACHE_TTL_NANOS,
                |k: Seq<char>| entries_table(old_entries)[k],
            );
            assert forall|k: Seq<char>| t_kept.contains_key(k) <==> want.contains_key(k) by {
                if t_kept.contains_key(k) {
                    let i = key_index(kept@, k);
                    lemma_entry_in_table(old_entries, idx[i]);
                }
                if want.contains_key(k) {
                    let w = key_index(old_entries, k);
                    lemma_entry_in_table(old_entries, w);
                    let i = choose|i: int| 0 <= i < kept@.len() && #[trigger] idx[i] == w;
                    assert(kept@[i].key@ == k);
                }
            }
            assert forall|k: Seq<char>| t_kept.contains_key(k) implies t_kept[k] == want[k] by {
                let i = key_index(kept@, k);
                lemma_entry_in_table(kept@, i);
                lemma_entry_in_table(old_entries, idx[i]);
            }
            assert(t_kept =~= want);
        }
        match find_entry(&kept, &key) {
            Some(i) => {
                let ghost before = kept@;
                let entry = CacheEntry { key, stamp: now, value };
                kept.set(i, entry);
                proof {
                    assert(keys_distinct(kept@)) by {
                        assert forall|a: int, b: int| 0 <= a < kept@.len() && 0 <= b < kept@.len() && a != b
                            implies kept@[a].key@ != kept@[b].key@ by {
                            assert(before[a].key@ != before[b].key@);
                        }
                    }
                    let t2 = entries_table(kept@);
                    let want = t_kept.insert(key@, (now, kept@[i as int].value));
                    assert forall|k: Seq<char>| t2.contains_key(k) <==> want.contains_key(k) by {
                        if t2.contains_key(k) {
                            let j = key_index(kept@, k);
                            if j != i { lemma_entry_in_table(before, j); }
                        }
                        if want.contains_key(k) && k != key@ {
                            let j = key_index(before, k);
                            assert(kept@[j].key@ == k);
                        }
                    }
                    assert forall|k: Seq<char>| t2.contains_key(k) implies t2[k] == want[k] by {
                        let j = key_index(kept@, k);
                        lemma_entry_in_table(kept@, j);
                        if j != i { lemma_entry_in_table(before, j); }
                    }
                    assert(t2 =~= want);
                }
            },
            None => {
                let ghost before = kept@;
                kept.push(CacheEntry { key, stamp: now, value });
                proof {
                    let n = before.len() as int;
                    assert(keys_distinct(kept@)) by {
                        assert forall|a: int, b: int| 0 <= a < kept@.len() && 0 <= b < kept@.len() && a != b
                            implies kept@[a].key@ != kept@[b].key@ by {
                            if a < n && b < n {
                                assert(before[a].key@ != before[b].key@);
                            } else if a == n {
                                assert(kept@[b] == before[b]);
                            } else {
                                assert(kept@[a] == before[a]);
                            }
                        }
                    }
                    let t2 = entries_table(kept@);
                    let want = t_kept.insert(key@, (now, kept@[n].value));
                    assert forall|k: Seq<char>| t2.contains_key(k) <==> want.contains_key(k) by {
                        if t2.contains_key(k) {
                            let j = key_index(kept@, k);
                            if j < n { assert(kept@[j] == before[j]); }
                        }
                        if want.contains_key(k) && k != key@ {
                            let j = key_index(before, k);
                            assert(kept@[j] == before[j]);
                        }
                        if k == key@ {
                            assert(kept@[n].key@ == k);
                        }
                    }
                    assert forall|k: Seq<char>| t2.contains_key(k) implies t2[k] == want[k] by {
                        let j = key_index(kept@, k);
                        lemma_entry_in_table(kept@, j);
                        if j < n {
                            assert(kept@[j] == before[j]);
                            lemma_entry_in_table(before, j);
                        }
                    }
                    assert(t2 =~= want);
                }
            },
        }
        let new_latest = if now > self.latest { now } else { self.latest };
        proof {
            assert forall|i: int| 0 <= i < kept@.len() implies #[trigger] kept@[i].stamp <= new_latest by {
                if kept@[i].key@ != key@ {
                    assert(t_kept.contains_key(kept@[i].key@));
                    lemma_entry_in_table(kept@, i);
                    let w = key_index(old_entries, kept@[i].key@);
                    lemma_entry_in_table(old_entries, w);
                } else {
                    lemma_entry_in_table(kept@, i);
                }
            }
        }
        self.latest = new_latest;
        self.entries = kept;
    }

    /// The value stored under `key` if it is young enough now.
    pub fn get_fresh(&self, key: &str) -> (r: Option<&V>)
        ensures
            exists|now: u128| now >= self.latest() && deref_opt(r) == lookup_spec(self.table(), key@, now),
    {
        let now = self.now_nanos();
        self.lookup_at(key, now)
    }

    /// The value stored under `key` if it is younger than the time-to-live
    /// now.
    pub fn get_young(&self, key: &str) -> (r: Option<&V>)
        ensures
            exists|now: u128| now >= self.latest() && deref_opt(r) == lookup_young_spec(self.table(), key@, now),
    {
        let now = self.now_nanos();
        self.lookup_young_at(key, now)
    }

    /// Stores `value` under `key` now, dropping what has grown too old. The
    /// moment of the store becomes `latest`; it is not before any stamp that
    /// was stored.
    pub fn put_fresh(&mut self, key: String, value: V)
        ensures
            final(self).latest() >= old(self).latest(),
            forall|k: Seq<char>| #[trigger] old(self).table().contains_key(k)
                ==> old(self).table()[k].0 <= final(self).latest(),
            final(self).table() == store_spec(old(self).table(), key@, value, final(self).latest()),
    {
        let now = self.now_nanos();
        self.store_at(key, value, now);
    }
}

} // verus!

verus! {

/// The cached candidates under `key`, copied, if they are young enough now.
pub fn cache_get(cache: &TtlCache<Vec<Candidate>>, key: &str) -> (r: Option<Vec<Candidate>>)
    ensures
        exists|now: u128| now >= cache.latest() && match #[trigger] lookup_spec(cache.table(), key@, now) {
            Some(v) => r matches Some(c) && models(c@) == models(v@),
            None => r is None,
        },
{
    let hit = cache.get_fresh(key);
    let ghost now = choose|now: u128| now >= cache.latest() && deref_opt(hit) == lookup_spec(cache.table(), key@, now);
    let r = match hit {
        Some(v) => Some(copy_candidates(v.as_slice())),
        None => None,
    };
    assert(match lookup_spec(cache.table(), key@, now) {
        Some(v) => r matches Some(c) && models(c@) == models(v@),
        None => r is None,
    });
    r
}

/// Stores a copy of `value` under `key` now.
pub fn cache_put(cache: &mut TtlCache<Vec<Candidate>>, key: &str, value: &[Candidate])
    ensures
        final(cache).latest() >= old(cache).latest(),
        forall|k: Seq<char>| #[trigger] old(cache).table().contains_key(k)
            ==> old(cache).table()[k].0 <= final(cache).latest(),
        exists|stored: Vec<Candidate>|
            models(stored@) == models(value@)
            && final(cache).table() == #[trigger] store_spec(old(cache).table(), key@, stored, final(cache).latest()),
{
    let stored = copy_candidates(value);
    cache.put_fresh(key.to_owned(), stored);
}

/// A lookup of a key at any reading from its store on gives the stored
/// value while the measured time since the store is at most the
/// time-to-live, and nothing after; a strict lookup, while it is under it.
pub proof fn lemma_lookup_after_store<V>(t: Map<Seq<char>, (u128, V)>, key: Seq<char>, value: V, stamp: u128, now: u128)
    requires
        stamp <= now,
    ensures
        lookup_spec(store_spec(t, key, value, stamp), key, now)
            == (if now - stamp <= CACHE_TTL_NANOS { Some(value) } else { None::<V> }),
        lookup_young_spec(store_spec(t, key, value, stamp), key, now)
            == (if now - stamp < CACHE_TTL_NANOS { Some(value) } else { None::<V> }),
{
}

/// A store of one key leaves what a later lookup of another key gives as it
/// was, when the other key's entry is not newer than the store; the one
/// exception is a lookup at the moment of the store of an entry exactly as
/// old as the time-to-live, which the store drops. A strict lookup has no
/// exception.
pub proof fn lemma_store_keeps_other_keys_later<V>(t: Map<Seq<char>, (u128, V)>, key: Seq<char>, other: Seq<char>, value: V, stamp: u128, now: u128)
    requires
        other != key,
        stamp <= now,
        t.contains_key(other) ==> t[other].0 <= stamp,
    ensures
        !(t.contains_key(other) && age(t[other].0, stamp) == CACHE_TTL_NANOS && now == stamp)
            ==> lookup_spec(store_spec(t, key, value, stamp), other, now) == lookup_spec(t, other, now),
        lookup_young_spec(store_spec(t, key, value, stamp), other, now) == lookup_young_spec(t, other, now),
{
}

/// A lookup right after a store of the same key, within the time-to-live,
/// gives back the stored value.
pub proof fn lemma_read_after_store<V>(t: Map<Seq<char>, (u128, V)>, key: Seq<char>, value: V, now: u128, later: u128)
    requires
        now <= later,
        later - now <= CACHE_TTL_NANOS,
    ensures
        lookup_spec(store_spec(t, key, value, now), key, later) == Some(value),
{
}

/// A strict lookup right after a store of the same key, before the
/// time-to-live has passed, gives back the stored value; from the moment it
/// has passed, nothing.
pub proof fn lemma_young_read_after_store<V>(t: Map<Seq<char>, (u128, V)>, key: Seq<char>, value: V, now: u128, later: u128)
    requires
        now <= later,
    ensures
        later - now < CACHE_TTL_NANOS ==> lookup_young_spec(store_spec(t, key, value, now), key, later) == Some(value),
        later - now >= CACHE_TTL_NANOS ==> lookup_young_spec(store_spec(t, key, value, now), key, later) is None,
{
}

/// A strict lookup finds an entry exactly when the other lookup does, except
/// for an entry exactly as old as the time-to-live, which only the other
/// lookup still gives back.
pub proof fn lemma_young_lookup_is_stricter<V>(t: Map<Seq<char>, (u128, V)>, key: Seq<char>, now: u128)
    ensures
        lookup_young_spec(t, key, now) is Some ==> lookup_young_spec(t, key, now) == lookup_spec(t, key, now),
        lookup_spec(t, key, now) is Some && lookup_young_spec(t, key, now) is None
            ==> age(t[key].0, now) == CACHE_TTL_NANOS,
{
}

/// Once older than the time-to-live, a stored value is no longer given back.
pub proof fn lemma_store_expires<V>(t: Map<Seq<char>, (u128, V)>, key: Seq<char>, value: V, now: u128, later: u128)
    requires
        later > now + CACHE_TTL_NANOS,
    ensures
        lookup_spec(store_spec(t, key, value, now), key, later) is None,
{
}

/// A store leaves the lookups of other keys at the same moment as they were,
/// except for an entry exactly as old as the time-to-live, which the store
/// drops.
pub proof fn lemma_store_keeps_other_keys<V>(t: Map<Seq<char>, (u128, V)>, key: Seq<char>, other: Seq<char>, value: V, now: u128)
    requires
        other != key,
        !(t.contains_key(other) && age(t[other].0, now) == CACHE_TTL_NANOS),
    ensures
        lookup_spec(store_spec(t, key, value, now), other, now) == lookup_spec(t, other, now),
{
}

/// A store never keeps an entry that has reached the time-to-live.
pub proof fn lemma_store_drops_expired<V>(t: Map<Seq<char>, (u128, V)>, key: Seq<char>, other: Seq<char>, value: V, now: u128)
    requires
        other != key,
        t.contains_key(other),
        age(t[other].0, now) >= CACHE_TTL_NANOS,
    ensures
        !store_spec(t, key, value, now).contains_key(other),
{
}

/// The keys of `t` whose entries are younger than the time-to-live at `now`.
pub open spec fn young_keys<V>(t: Map<Seq<char>, (u128, V)>, now: u128) -> Set<Seq<char>> {
    t.dom().filter(|k: Seq<char>| age(t[k].0, now) < CACHE_TTL_NANOS)
}

/// After a store, the cache holds the stored key and otherwise only entries
/// younger than the time-to-live: at most one entry more than the young
/// entries it held before.
pub proof fn lemma_store_keeps_only_young<V>(t: Map<Seq<char>, (u128, V)>, key: Seq<char>, value: V, now: u128)
    requires
        t.dom().finite(),
    ensures
        forall|k: Seq<char>| #[trigger] store_spec(t, key, value, now).contains_key(k)
            ==> k == key || young_keys(t, now).contains(k),
        store_spec(t, key, value, now).dom().finite(),
        store_spec(t, key, value, now).dom().len() <= young_keys(t, now).len() + 1,
{
    let young = young_keys(t, now);
    let after = store_spec(t, key, value, now);
    t.dom().lemma_len_filter(|k: Seq<char>| age(t[k].0, now) < CACHE_TTL_NANOS);
    assert(after.dom().subset_of(young.insert(key)));
    vstd::set::axiom_set_insert_finite(young, key);
    vstd::set::axiom_set_insert_len(young, key);
    vstd::set_lib::lemma_len_subset(after.dom(), young.insert(key));
}

} // verus!
