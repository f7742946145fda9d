//! Grid-cell cache of weather readings.
//!
//! Locations within the same grid cell share one reading; a reading stays usable for
//! `CACHE_TTL_SECS` seconds after it was stored. Times are nanoseconds of the monotonic clock,
//! counted from the moment the cache was made.

use vstd::prelude::*;
use crate::clock::{instant_now, nanos_since};

verus! {

/// How long a stored reading stays fresh, in seconds.
pub const CACHE_TTL_SECS: u64 = 300;

/// How long a stored reading stays fresh, in nanoseconds.
pub const CACHE_TTL_NANOS: u64 = CACHE_TTL_SECS * 1_000_000_000;

/// Grid cell key: (latitude cell, longitude cell).
pub type CellKey = (i32, i32);

/// One stored reading.
pub struct CacheEntry<V> {
    pub key: CellKey,
    pub stored_at: u64,
    pub value: V,
}

/// Readings by grid cell, each with the time it was stored.
pub struct GridCache<V> {
    base: std::time::Instant,
    entries: Vec<CacheEntry<V>>,
}

/// Age of a reading stored at `stored_at`, as of `now` (0 when `stored_at` lies ahead).
pub open spec fn spec_age(now: u64, stored_at: u64) -> int {
    if now >= stored_at { now - stored_at } else { 0 }
}

/// Whether a reading stored at `stored_at` is still fresh at `now`.
pub open spec fn spec_fresh(now: u64, stored_at: u64) -> bool {
    spec_age(now, stored_at) < CACHE_TTL_NANOS
}

/// The entry stored under `k` (the last one, should there be several).
pub open spec fn seq_lookup<V>(s: Seq<CacheEntry<V>>, k: CellKey) -> Option<(u64, V)>
    decreases s.len(),
{
    if s.len() == 0 {
        None
    } else if s.last().key == k {
        Some((s.last().stored_at, s.last().value))
    } else {
        seq_lookup(s.drop_last(), k)
    }
}

/// No two entries share a key.
pub open spec fn keys_distinct<V>(s: Seq<CacheEntry<V>>) -> bool {
    forall|i: int, j: int| 0 <= i < j < s.len() ==> s[i].key != s[j].key
}

/// The fresh entries of `s` as of `now`, in order.
pub open spec fn fresh_filter<V>(s: Seq<CacheEntry<V>>, now: u64) -> Seq<CacheEntry<V>>
    decreases s.len(),
{
    if s.len() == 0 {
        Seq::empty()
    } else {
        let init = fresh_filter(s.drop_last(), now);
        if spec_fresh(now, s.last().stored_at) {
            init.push(s.last())
        } else {
            init
        }
    }
}

/// Stored readings by cell: `(stored_at, value)`.
pub open spec fn entries_view<V>(s: Seq<CacheEntry<V>>) -> Map<CellKey, (u64, V)> {
    Map::new(|k: CellKey| seq_lookup(s, k) is Some, |k: CellKey| seq_lookup(s, k).unwrap())
}

/// `m` with only its entries fresh at `now`.
pub open spec fn fresh_part<V>(m: Map<CellKey, (u64, V)>, now: u64) -> Map<CellKey, (u64, V)> {
    Map::new(|k: CellKey| m.contains_key(k) && spec_fresh(now, m[k].0), |k: CellKey| m[k])
}

/// What a lookup of `k` at `now` answers: the stored value when it is fresh.
pub open spec fn spec_fresh_value<V>(m: Map<CellKey, (u64, V)>, k: CellKey, now: u64) -> Option<V> {
    if m.contains_key(k) && spec_fresh(now, m[k].0) {
        Some(m[k].1)
    } else {
        None
    }
}

proof fn lemma_lookup_at<V>(s: Seq<CacheEntry<V>>, i: int)
    requires
        keys_distinct(s),
        0 <= i < s.len(),
    ensures
        seq_lookup(s, s[i].key) == Some((s[i].stored_at, s[i].value)),
    decreases s.len(),
{
    if i < s.len() - 1 {
        assert(s.last().key != s[i].key);
        assert(s.drop_last()[i] == s[i]);
        lemma_lookup_at(s.drop_last(), i);
    }
}

proof fn lemma_lookup_absent<V>(s: Seq<CacheEntry<V>>, k: CellKey)
    requires
        forall|i: int| 0 <= i < s.len() ==> s[i].key != k,
    ensures
        seq_lookup(s, k) is None,
    decreases s.len(),
{
    if s.len() > 0 {
        assert(s.last().key != k);
        assert forall|i: int| 0 <= i < s.drop_last().len() implies s.drop_last()[i].key != k by {
            assert(s.drop_last()[i] == s[i]);
        }
        lemma_lookup_absent(s.drop_last(), k);
    }
}

proof fn lemma_lookup_update<V>(s: Seq<CacheEntry<V>>, i: int, e: CacheEntry<V>, k: CellKey)
    requires
        keys_distinct(s),
        0 <= i < s.len(),
        s[i].key == e.key,
    ensures
        seq_lookup(s.update(i, e), k) == (if k == e.key {
            Some((e.stored_at, e.value))
        } else {
            seq_lookup(s, k)
        }),
    decreases s.len(),
{
    let t = s.update(i, e);
    if i == s.len() - 1 {
        assert(t.drop_last() == s.drop_last());
        if k == e.key {
        } else {
        }
    } else {
        assert(t.drop_last() == s.drop_last().update(i, e));
        assert(t.last() == s.last());
        assert(s.last().key != s[i].key);
        assert forall|a: int, b: int| 0 <= a < b < s.drop_last().len() implies s.drop_last()[a].key
            != s.drop_last()[b].key by {
            assert(s.drop_last()[a] == s[a]);
            assert(s.drop_last()[b] == s[b]);
        }
        assert(s.drop_last()[i] == s[i]);
        lemma_lookup_update(s.drop_last(), i, e, k);
    }
}

proof fn lemma_fresh_filter<V>(s: Seq<CacheEntry<V>>, now: u64, k: CellKey)
    requires
        keys_distinct(s),
    ensures
        keys_distinct(fresh_filter(s, now)),
        seq_lookup(fresh_filter(s, now), k) == (match seq_lookup(s, k) {
            Some(p) => if spec_fresh(now, p.0) { Some(p) } else { None },
            None => None,
        }),
        forall|i: int| 0 <= i < fresh_filter(s, now).len() ==> exists|j: int|
            0 <= j < s.len() && #[trigger] fresh_filter(s, now)[i] == s[j],
    decreases s.len(),
{
    if s.len() > 0 {
        let d = s.drop_last();
        assert forall|a: int, b: int| 0 <= a < b < d.len() implies d[a].key != d[b].key by {
            assert(d[a] == s[a]);
            assert(d[b] == s[b]);
        }
        lemma_fresh_filter(d, now, k);
        let f = fresh_filter(d, now);
        assert forall|i: int| 0 <= i < f.len() implies f[i].key != s.last().key by {
            let j = choose|j: int| 0 <= j < d.len() && f[i] == d[j];
            assert(d[j] == s[j]);
        }
        let ff = fresh_filter(s, now);
        assert forall|i: int| 0 <= i < ff.len() implies exists|j: int|
            0 <= j < s.len() && #[trigger] ff[i] == s[j] by {
            if i < f.len() {
                let j = choose|j: int| 0 <= j < d.len() && f[i] == d[j];
                assert(d[j] == s[j]);
                assert(ff[i] == f[i]);
            } else {
                assert(ff[i] == s[s.len() - 1]);
            }
        }
        if spec_fresh(now, s.last().stored_at) {
            assert(ff.drop_last() == f);
        }
        if s.last().key == k {
            assert forall|i: int| 0 <= i < d.len() implies d[i].key != k by {
                assert(d[i] == s[i]);
                assert(s[s.len() - 1].key == k);
            }
            lemma_lookup_absent(d, k);
        }
    }
}

impl<V> GridCache<V> {
    #[verifier::type_invariant]
    spec fn distinct_cells(&self) -> bool {
        keys_distinct(self.entries@)
    }

    /// Stored readings by cell: `(stored_at, value)`.
    pub closed spec fn view(&self) -> Map<CellKey, (u64, V)> {
        entries_view(self.entries@)
    }

    /// An empty cache.
    pub fn new() -> (r: Self)
        ensures
            r.view() == Map::<CellKey, (u64, V)>::empty(),
    {
        let r = GridCache { base: instant_now(), entries: Vec::new() };
        assert(r.view() == Map::<CellKey, (u64, V)>::empty());
        r
    }

    /// The current time on the cache's clock: nanoseconds of the monotonic clock since the
    /// cache was made.
    pub fn now_stamp(&self) -> u64 {
        nanos_since(&self.base)
    }

    fn find(&self, key: CellKey) -> (r: Option<usize>)
        ensures
            r matches Some(i) ==> i < self.entries@.len() && self.entries@[i as int].key == key,
            r is None ==> forall|i: int| 0 <= i < self.entries@.len() ==> self.entries@[i].key != key,
    {
        let mut i: usize = 0;
        while i < self.entries.len()
            invariant
                i <= self.entries@.len(),
                forall|j: int| 0 <= j < i ==> self.entries@[j].key != key,
            decreases self.entries@.len() - i,
        {
            let k = self.entries[i].key;
            if k.0 == key.0 && k.1 == key.1 {
                return Some(i);
            }
            i = i + 1;
        }
        None
    }

    /// The reading stored for `key`, if it is still fresh at `now`.
    pub fn get_fresh(&self, key: CellKey, now: u64) -> (r: Option<&V>)
        ensures
            r matches Some(v) ==> spec_fresh_value(self.view(), key, now) == Some(*v),
            r is None ==> spec_fresh_value(self.view(), key, now) is None,
    {
        proof {
            use_type_invariant(self);
        }
        match self.find(key) {
            Some(i) => {
                proof {
                    lemma_lookup_at(self.entries@, i as int);
                }
                let e = &self.entries[i];
                let fresh = if now >= e.stored_at { now - e.stored_at < CACHE_TTL_NANOS } else { true };
                if fresh {
                    Some(&e.value)
                } else {
                    None
                }
            },
            None => {
                proof {
                    lemma_lookup_absent(self.entries@, key);
                }
                None
            },
        }
    }

    /// Stores `value` for `key` at time `now`, replacing what the cell held.
    pub fn insert(&mut self, key: CellKey, now: u64, value: V)
        ensures
            final(self).view() == old(self).view().insert(key, (now, value)),
    {
        proof {
            use_type_invariant(&*self);
        }
        let e = CacheEntry { key, stored_at: now, value };
        let ghost old_entries = self.entries@;
        match self.find(key) {
            Some(i) => {
                let mut entries = Vec::new();
                std::mem::swap(&mut entries, &mut self.entries);
                entries.set(i, e);
                proof {
                    assert forall|k: CellKey| seq_lookup(entries@, k) == (if k == key {
                        Some((now, value))
                    } else {
                        seq_lookup(old_entries, k)
                    }) by {
                        lemma_lookup_update(old_entries, i as int, CacheEntry { key, stored_at: now, value }, k);
                    }
                    assert forall|a: int, b: int| 0 <= a < b < entries@.len() implies entries@[a].key
                        != entries@[b].key by {
                        assert(old_entries[a].key != old_entries[b].key);
                    }
                }
                self.entries = entries;
            },
            None => {
                let mut entries = Vec::new();
                std::mem::swap(&mut entries, &mut self.entries);
                entries.push(e);
                proof {
                    assert(entries@.drop_last() == old_entries);
                    assert forall|a: int, b: int| 0 <= a < b < entries@.len() implies entries@[a].key
                        != entries@[b].key by {
                        if b < old_entries.len() {
                            assert(old_entries[a].key != old_entries[b].key);
                        } else {
                            assert(entries@[a] == old_entries[a]);
                        }
                    }
                }
                self.entries = entries;
            },
        }
        assert(self.view() == old(self).view().insert(key, (now, value)));
    }

    /// Drops every reading that is no longer fresh at `now`.
    pub fn cleanup_at(&mut self, now: u64)
        ensures
            final(self).view() == fresh_part(old(self).view(), now),
    {
        proof {
            use_type_invariant(&*self);
        }
        let ghost orig = self.entries@;
        let mut rest: Vec<CacheEntry<V>> = Vec::new();
        std::mem::swap(&mut rest, &mut self.entries);
        let mut kept: Vec<CacheEntry<V>> = Vec::new();
        let ghost mut j: int = 0;
        while rest.len() > 0
            invariant
                0 <= j <= orig.len(),
                rest@ == orig.skip(j),
                kept@ == fresh_filter(orig.take(j), now),
                keys_distinct(orig),
            decreases rest@.len(),
        {
            let e = rest.remove(0);
            proof {
                assert(e == orig[j]);
                assert(orig.take(j + 1).drop_last() == orig.take(j));
                assert(orig.take(j + 1).last() == orig[j]);
                assert(orig.skip(j).remove(0) == orig.skip(j + 1));
                j = j + 1;
            }
            let fresh = if now >= e.stored_at { now - e.stored_at < CACHE_TTL_NANOS } else { true };
            if fresh {
                kept.push(e);
            }
        }
        proof {
            assert(orig.skip(j).len() == 0);
            assert(orig.take(j) == orig);
            assert forall|k: CellKey| #![auto] true implies seq_lookup(kept@, k) == (match seq_lookup(orig, k) {
                Some(p) => if spec_fresh(now, p.0) { Some(p) } else { None },
                None => None,
            }) by {
                lemma_fresh_filter(orig, now, k);
            }
            lemma_fresh_filter(orig, now, (0i32, 0i32));
        }
        self.entries = kept;
        assert(self.view() == fresh_part(old(self).view(), now));
    }
}

/// Drops every reading that is no longer fresh by the current time.
pub fn cleanup_cache<V>(cache: &mut GridCache<V>)
    ensures
        exists|now: u64| #[trigger] fresh_part(old(cache).view(), now) == final(cache).view(),
{
    let now = cache.now_stamp();
    cache.cleanup_at(now);
}

/// Ids of the sensors lying in cell `k`, in order.
pub open spec fn ids_in_cell(s: Seq<(i64, CellKey)>, k: CellKey) -> Seq<i64>
    decreases s.len(),
{
    if s.len() == 0 {
        Seq::empty()
    } else {
        let init = ids_in_cell(s.drop_last(), k);
        if s.last().1 == k {
            init.push(s.last().0)
        } else {
            init
        }
    }
}

/// Whether some sensor of `s` lies in cell `k`.
pub open spec fn has_cell(s: Seq<(i64, CellKey)>, k: CellKey) -> bool {
    exists|i: int| 0 <= i < s.len() && #[trigger] s[i].1 == k
}

proof fn lemma_ids_in_cell_empty(s: Seq<(i64, CellKey)>, k: CellKey)
    requires
        !has_cell(s, k),
    ensures
        ids_in_cell(s, k) == Seq::<i64>::empty(),
    decreases s.len(),
{
    if s.len() > 0 {
        assert(s[s.len() - 1].1 != k);
        assert(!has_cell(s.drop_last(), k)) by {
            if has_cell(s.drop_last(), k) {
                let i = choose|i: int| 0 <= i < s.drop_last().len() && #[trigger] s.drop_last()[i].1 == k;
                assert(s[i] == s.drop_last()[i]);
            }
        }
        lemma_ids_in_cell_empty(s.drop_last(), k);
    }
}

fn find_cell(keys: &Vec<CellKey>, key: CellKey) -> (r: Option<usize>)
    ensures
        r matches Some(g) ==> g < keys@.len() && keys@[g as int] == key,
        r is None ==> forall|h: int| 0 <= h < keys@.len() ==> keys@[h] != key,
{
    let mut g: usize = 0;
    while g < keys.len()
        invariant
            g <= keys@.len(),
            forall|h: int| 0 <= h < g ==> keys@[h] != key,
        decreases keys@.len() - g,
    {
        if keys[g].0 == key.0 && keys[g].1 == key.1 {
            return Some(g);
        }
        g = g + 1;
    }
    None
}

/// Whether some group of `groups` is for cell `k`.
pub open spec fn has_group(groups: Seq<(CellKey, Vec<i64>)>, k: CellKey) -> bool {
    exists|g: int| 0 <= g < groups.len() && #[trigger] groups[g].0 == k
}

/// Whether `k` is among `keys`.
pub open spec fn key_listed(keys: Seq<CellKey>, k: CellKey) -> bool {
    exists|g: int| 0 <= g < keys.len() && #[trigger] keys[g] == k
}

/// Groups sensors `(id, cell)` by cell: one group per cell that holds a sensor, each listing
/// the ids of the sensors in that cell in input order.
pub fn group_by_cell(sensors: &Vec<(i64, CellKey)>) -> (groups: Vec<(CellKey, Vec<i64>)>)
    ensures
        forall|a: int, b: int| 0 <= a < b < groups@.len() ==> groups@[a].0 != groups@[b].0,
        forall|g: int| 0 <= g < groups@.len() ==> has_cell(sensors@, #[trigger] groups@[g].0)
            && groups@[g].1@ == ids_in_cell(sensors@, groups@[g].0),
        forall|i: int| 0 <= i < sensors@.len() ==> has_group(groups@, #[trigger] sensors@[i].1),
{
    let mut keys: Vec<CellKey> = Vec::new();
    let mut members: Vec<Vec<i64>> = Vec::new();
    let mut i: usize = 0;
    while i < sensors.len()
        invariant
            i <= sensors@.len(),
            keys@.len() == members@.len(),
            forall|a: int, b: int| 0 <= a < b < keys@.len() ==> keys@[a] != keys@[b],
            forall|g: int| 0 <= g < keys@.len() ==> has_cell(sensors@.take(i as int), #[trigger] keys@[g])
                && members@[g]@ == ids_in_cell(sensors@.take(i as int), keys@[g]),
            forall|j: int| 0 <= j < i ==> key_listed(keys@, #[trigger] sensors@[j].1),
        decreases sensors@.len() - i,
    {
        let (id, key) = sensors[i];
        let ghost p = sensors@.take(i as int);
        let ghost q = sensors@.take(i + 1);
        assert(q.drop_last() == p);
        assert(q.last() == (id, key));
        let found = find_cell(&keys, key);
        let ghost old_keys = keys@;
        let ghost old_members = members@;
        match found {
            Some(g) => {
                let mut v: Vec<i64> = Vec::new();
                members.set_and_swap(g, &mut v);
                v.push(id);
                members.set(g, v);
                proof {
                    assert forall|h: int| 0 <= h < keys@.len() implies has_cell(q, #[trigger] keys@[h])
                        && members@[h]@ == ids_in_cell(q, keys@[h]) by {
                        let w = choose|w: int| 0 <= w < p.len() && #[trigger] p[w].1 == keys@[h];
                        assert(q[w] == p[w]);
                    }
                }
            },
            None => {
                proof {
                    assert(!has_cell(p, key)) by {
                        if has_cell(p, key) {
                            let w = choose|w: int| 0 <= w < p.len() && #[trigger] p[w].1 == key;
                            assert(p[w] == sensors@[w]);
                            assert(sensors@[w].1 == key);
                            assert(key_listed(keys@, sensors@[w].1));
                            let h = choose|h: int| 0 <= h < keys@.len() && #[trigger] keys@[h] == sensors@[w].1;
                            assert(keys@[h] != key);
                        }
                    }
                    lemma_ids_in_cell_empty(p, key);
                }
                keys.push(key);
                let mut v: Vec<i64> = Vec::new();
                v.push(id);
                members.push(v);
                proof {
                    assert forall|h: int| 0 <= h < keys@.len() implies has_cell(q, #[trigger] keys@[h])
                        && members@[h]@ == ids_in_cell(q, keys@[h]) by {
                        if h < old_keys.len() {
                            let w = choose|w: int| 0 <= w < p.len() && #[trigger] p[w].1 == keys@[h];
                            assert(q[w] == p[w]);
                            assert(old_keys[h] != key);
                        } else {
                            assert(q[i as int].1 == key);
                            assert(Seq::<i64>::empty().push(id) == members@[h]@);
                        }
                    }
                }
            },
        }
        proof {
            assert forall|j: int| 0 <= j < i + 1 implies key_listed(keys@, #[trigger] sensors@[j].1) by {
                if j < i {
                    assert(key_listed(old_keys, sensors@[j].1));
                    let h = choose|h: int| 0 <= h < old_keys.len() && #[trigger] old_keys[h] == sensors@[j].1;
                    assert(keys@[h] == old_keys[h]);
                } else {
                    match found {
                        Some(g) => assert(keys@[g as int] == sensors@[j].1),
                        None => assert(keys@[keys@.len() - 1] == sensors@[j].1),
                    }
                }
            }
        }
        i = i + 1;
    }
    assert(sensors@.take(sensors@.len() as int) == sensors@);
    assert(i == sensors@.len());
    let mut groups: Vec<(CellKey, Vec<i64>)> = Vec::new();
    let ghost all_keys = keys@;
    let ghost all_members = members@;
    let mut k: usize = 0;
    while members.len() > 0
        invariant
            keys@ == all_keys,
            k <= all_keys.len(),
            all_keys.len() == all_members.len(),
            members@ == all_members.skip(k as int),
            groups@.len() == k,
            forall|g: int| 0 <= g < k ==> #[trigger] groups@[g].0 == all_keys[g] && groups@[g].1 == all_members[g],
            forall|a: int, b: int| 0 <= a < b < all_keys.len() ==> all_keys[a] != all_keys[b],
            forall|g: int| 0 <= g < all_keys.len() ==> has_cell(sensors@, #[trigger] all_keys[g])
                && all_members[g]@ == ids_in_cell(sensors@, all_keys[g]),
            forall|j: int| 0 <= j < sensors@.len() ==> key_listed(all_keys, #[trigger] sensors@[j].1),
        decreases members@.len(),
    {
        assert(k < all_members.len());
        assert(k < keys.len());
        let v = members.remove(0);
        assert(v == all_members[k as int]);
        assert(all_members.skip(k as int).remove(0) == all_members.skip(k + 1));
        groups.push((keys[k], v));
        k = k + 1;
    }
    assert(all_members.skip(k as int).len() == 0);
    assert forall|i: int| 0 <= i < sensors@.len() implies has_group(groups@, #[trigger] sensors@[i].1) by {
        let h = choose|h: int| 0 <= h < all_keys.len() && #[trigger] all_keys[h] == sensors@[i].1;
        assert(groups@[h].0 == all_keys[h]);
    }
    groups
}

/// Reading after writing: a value stored at `now` is what a lookup of the same cell at the same
/// time answers, and storing never changes what other cells answer.
pub proof fn law_read_after_insert<V>(m: Map<CellKey, (u64, V)>, key: CellKey, other: CellKey, now: u64, value: V)
    ensures
        spec_fresh_value(m.insert(key, (now, value)), key, now) == Some(value),
        other != key ==> spec_fresh_value(m.insert(key, (now, value)), other, now)
            == spec_fresh_value(m, other, now),
{
}

/// Cleaning up keeps exactly the readings a lookup would still answer with, so it never changes
/// what a lookup at the same time answers.
pub proof fn law_cleanup_keeps_answers<V>(m: Map<CellKey, (u64, V)>, key: CellKey, now: u64)
    ensures
        spec_fresh_value(fresh_part(m, now), key, now) == spec_fresh_value(m, key, now),
        forall|k: CellKey| #[trigger] fresh_part(m, now).contains_key(k) ==> spec_fresh(now, fresh_part(m, now)[k].0),
{
}

/// A reading is fresh for five minutes: stamps counted in nanoseconds, it is served while less
/// than 300 000 000 000 of them have passed since it was stored (and when it was stamped after
/// the time asked about).
pub proof fn law_fresh_for_five_minutes(now: u64, stored_at: u64)
    ensures
        spec_fresh(now, stored_at) <==> (now < stored_at || now - stored_at < 300_000_000_000),
{
}

} // verus!
