//! One shard of the file cache: an LFU store with an LRU tie-break.
//!
//! Entries live in slots. Each use count has a bucket: a list of the slots
//! of that count, the most recently used at the front. Every entry carries
//! the handle of its node in its bucket, so a touch moves it to the front of
//! the next bucket in constant time, and eviction takes the back of the
//! bucket of the least use count. Each entry also carries a recency stamp,
//! which orders every bucket and states the eviction order.
use std::collections::HashMap;
use std::time::SystemTime;
use vstd::prelude::*;
use crate::dlink_list::Dlinklist;
use crate::keyindex::KeyIndex;

verus! {

broadcast use vstd::std_specs::hash::group_hash_axioms;

#[verifier::external_type_specification]
#[verifier::external_body]
pub struct ExSystemTime(SystemTime);

/// Relies on `std::time::SystemTime::now`: the wall-clock time of the call.
#[verifier::external_body]
pub(crate) fn wall_clock_now() -> SystemTime {
    SystemTime::now()
}

/// Rank of an entry: its use count, then its recency stamp.
pub type Rank = (u64, u64);

/// Strict order of ranks: fewer uses first, then older first.
pub open spec fn rank_lt(a: Rank, b: Rank) -> bool {
    a.0 < b.0 || (a.0 == b.0 && a.1 < b.1)
}

/// Bytes handed out for a cached key, with the time they were stored.
pub struct FileData {
    pub val: Vec<u8>,
    pub last_updated: SystemTime,
}

impl FileData {
    /// A copy of `val` stamped with `last_updated`.
    pub fn new(val: &Vec<u8>, last_updated: SystemTime) -> (r: FileData)
        ensures
            r.val@ == val@,
            r.last_updated == last_updated,
    {
        FileData { val: val.clone(), last_updated }
    }
}

/// A stored entry.
pub struct CacheValue {
    pub key: String,
    pub val: Vec<u8>,
    pub last_updated: SystemTime,
    pub freq_cnt: u64,
    pub stamp: u64,
    pub node: usize,
}

impl CacheValue {
    /// An entry for `key` holding `val`, used `freq_cnt` times, last at
    /// `stamp`, whose bucket node has handle `node`.
    pub fn new(key: String, val: Vec<u8>, last_updated: SystemTime, freq_cnt: u64, stamp: u64, node: usize) -> (r:
        CacheValue)
        ensures
            r.key@ == key@,
            r.val@ == val@,
            r.last_updated == last_updated,
            r.freq_cnt == freq_cnt,
            r.stamp == stamp,
            r.node == node,
    {
        CacheValue { key, val, last_updated, freq_cnt, stamp, node }
    }
}

/// Bytes held by a slot.
pub open spec fn slot_size(s: Option<CacheValue>) -> nat {
    match s {
        Some(v) => v.val@.len(),
        None => 0,
    }
}

/// Bytes held by all slots.
pub open spec fn total_size(s: Seq<Option<CacheValue>>) -> nat
    decreases s.len(),
{
    if s.len() == 0 {
        0
    } else {
        total_size(s.drop_last()) + slot_size(s.last())
    }
}

proof fn lemma_total_update(s: Seq<Option<CacheValue>>, i: int, x: Option<CacheValue>)
    requires
        0 <= i < s.len(),
    ensures
        total_size(s.update(i, x)) + slot_size(s[i]) == total_size(s) + slot_size(x),
    decreases s.len(),
{
    if i == s.len() - 1 {
        assert(s.update(i, x).drop_last() =~= s.drop_last());
    } else {
        lemma_total_update(s.drop_last(), i, x);
        assert(s.update(i, x).drop_last() =~= s.drop_last().update(i, x));
    }
}

proof fn lemma_total_push(s: Seq<Option<CacheValue>>, x: Option<CacheValue>)
    ensures
        total_size(s.push(x)) == total_size(s) + slot_size(x),
{
    assert(s.push(x).drop_last() =~= s);
}

proof fn lemma_total_positive(s: Seq<Option<CacheValue>>)
    requires
        total_size(s) > 0,
    ensures
        exists|i: int| 0 <= i < s.len() && #[trigger] s[i] is Some,
    decreases s.len(),
{
    if s.last() is Some {
        assert(s[s.len() - 1] is Some);
    } else {
        lemma_total_positive(s.drop_last());
        let i = choose|i: int| 0 <= i < s.drop_last().len() && #[trigger] s.drop_last()[i] is Some;
        assert(s[i] is Some);
    }
}

/// What a shard knows of a key: its bytes, its use count and its stamp.
pub type EntryView = (Seq<u8>, u64, u64);

proof fn lemma_sum_remove(m: Map<Seq<char>, EntryView>, keys: Set<Seq<char>>, k: Seq<char>)
    requires
        keys.finite(),
        keys.contains(k),
    ensures
        sum_bytes(m, keys) == m[k].0.len() + sum_bytes(m, keys.remove(k)),
    decreases keys.len(),
{
    assert(keys.len() > 0) by {
        if keys.len() == 0 {
            assert(keys =~= Set::<Seq<char>>::empty());
        }
    }
    let c = keys.choose();
    assert(keys.contains(c));
    if c != k {
        lemma_sum_remove(m, keys.remove(c), k);
        lemma_sum_remove(m, keys.remove(k), c);
        assert(keys.remove(c).remove(k) =~= keys.remove(k).remove(c));
    }
}

proof fn lemma_sum_congruent(m1: Map<Seq<char>, EntryView>, m2: Map<Seq<char>, EntryView>, keys: Set<Seq<char>>)
    requires
        keys.finite(),
        forall|k: Seq<char>| #[trigger] keys.contains(k) ==> m1[k].0.len() == m2[k].0.len(),
    ensures
        sum_bytes(m1, keys) == sum_bytes(m2, keys),
    decreases keys.len(),
{
    if keys.len() > 0 {
        let c = keys.choose();
        assert(keys.contains(c)) by {
            if !keys.contains(c) {
                assert(keys =~= Set::<Seq<char>>::empty());
            }
        }
        lemma_sum_congruent(m1, m2, keys.remove(c));
    }
}

proof fn lemma_sum_subset(m: Map<Seq<char>, EntryView>, a: Set<Seq<char>>, b: Set<Seq<char>>)
    requires
        b.finite(),
        a.subset_of(b),
    ensures
        a.finite(),
        sum_bytes(m, a) <= sum_bytes(m, b),
    decreases b.len(),
{
    vstd::set_lib::lemma_len_subset(a, b);
    if b.len() == 0 {
        assert(a =~= Set::<Seq<char>>::empty());
        assert(b =~= Set::<Seq<char>>::empty());
    } else {
        let x = b.choose();
        assert(b.contains(x)) by {
            if !b.contains(x) {
                assert(b =~= Set::<Seq<char>>::empty());
            }
        }
        lemma_sum_remove(m, b, x);
        if a.contains(x) {
            lemma_sum_remove(m, a, x);
            lemma_sum_subset(m, a.remove(x), b.remove(x));
        } else {
            lemma_sum_subset(m, a, b.remove(x));
        }
    }
}

/// Bytes of the entries of `m` whose keys are in `keys`.
pub open spec fn sum_bytes(m: Map<Seq<char>, EntryView>, keys: Set<Seq<char>>) -> nat
    decreases keys.len(),
{
    if keys.finite() && keys.len() > 0 {
        let k = keys.choose();
        m[k].0.len() + sum_bytes(m, keys.remove(k))
    } else {
        0
    }
}

/// Rank of an entry as seen from outside.
pub open spec fn entry_rank(e: EntryView) -> Rank {
    (e.1, e.2)
}

/// A single LFU cache with an LRU tie-break.
pub struct CacheStore {
    slot_of: KeyIndex,
    slots: Vec<Option<CacheValue>>,
    free: Vec<usize>,
    buckets: HashMap<u64, Dlinklist<usize>>,
    pub(crate) lfu_cnt: u64,
    clock: u64,
    capacity: usize,
    pub(crate) cur_size: usize,
}

impl CacheStore {
    /// The slot is in use.
    pub closed spec fn occupied(&self, i: int) -> bool {
        0 <= i < self.slots@.len() && self.slots@[i] is Some
    }

    /// The entry in slot `i`.
    pub closed spec fn slot(&self, i: int) -> CacheValue {
        self.slots@[i]->Some_0
    }

    /// Entries by key.
    pub closed spec fn entries(&self) -> Map<Seq<char>, EntryView> {
        Map::new(
            |k: Seq<char>| self.slot_of@.contains_key(k),
            |k: Seq<char>|
                {
                    let v = self.slot(self.slot_of@[k] as int);
                    (v.val@, v.freq_cnt, v.stamp)
                },
        )
    }

    /// The time stored with key `k`.
    pub closed spec fn stored_time(&self, k: Seq<char>) -> SystemTime {
        self.slot(self.slot_of@[k] as int).last_updated
    }

    /// Stamp that the next update will take.
    pub closed spec fn clock(&self) -> u64 {
        self.clock
    }

    /// Bytes that the shard may hold.
    pub closed spec fn capacity(&self) -> nat {
        self.capacity as nat
    }

    /// Bytes that the shard holds.
    pub closed spec fn size(&self) -> nat {
        self.cur_size as nat
    }

    /// Least use count of a stored entry.
    pub closed spec fn min_freq(&self) -> u64 {
        self.lfu_cnt
    }

    /// The bucket of use count `f` lists slots that hold `f` uses, each
    /// with the handle of its own node, more recent stamps first.
    pub closed spec fn bucket_ok(&self, f: u64) -> bool {
        let b = self.buckets@[f];
        &&& b.wf()
        &&& forall|p: int|
            #![trigger b.view()[p]]
            0 <= p < b.view().len() ==> {
                &&& self.occupied(b.view()[p] as int)
                &&& self.slot(b.view()[p] as int).freq_cnt == f
                &&& self.slot(b.view()[p] as int).node == b.handles()[p]
            }
        &&& forall|p: int, q: int|
            #![trigger b.view()[p], b.view()[q]]
            0 <= p < q < b.view().len() ==> self.slot(b.view()[p] as int).stamp > self.slot(
                b.view()[q] as int,
            ).stamp
    }

    /// Slot `i` stands in the bucket of its use count.
    pub closed spec fn in_bucket(&self, i: int) -> bool {
        let f = self.slot(i).freq_cnt;
        self.buckets@.contains_key(f) && exists|p: int|
            0 <= p < self.buckets@[f].view().len() && #[trigger] self.buckets@[f].view()[p] as int == i
    }

    /// The buckets hold exactly the stored entries, each in the bucket of its
    /// use count.
    pub closed spec fn buckets_agree(&self) -> bool {
        &&& forall|f: u64| #[trigger] self.buckets@.contains_key(f) ==> self.bucket_ok(f)
        &&& forall|i: int| #![trigger self.slots@[i]] self.occupied(i) ==> self.in_bucket(i)
    }

    /// Internal consistency of a shard.
    pub closed spec fn wf(&self) -> bool {
        self.wf_core() && self.min_freq_correct()
    }

    /// Internal consistency of a shard, the least use count aside.
    pub closed spec fn wf_core(&self) -> bool {
        &&& self.slot_of.wf()
        &&& forall|k: Seq<char>|
            #![trigger self.slot_of@.contains_key(k)]
            self.slot_of@.contains_key(k) ==> self.occupied(self.slot_of@[k] as int) && self.slot(
                self.slot_of@[k] as int,
            ).key@ == k
        &&& forall|i: int|
            #![trigger self.slots@[i]]
            self.occupied(i) ==> self.slot_of@.contains_key(self.slot(i).key@)
                && self.slot_of@[self.slot(i).key@] == i
        &&& self.buckets_agree()
        &&& forall|i: int|
            #![trigger self.slots@[i]]
            self.occupied(i) ==> 1 <= self.slot(i).freq_cnt <= self.clock && self.slot(i).stamp
                < self.clock && self.slot(i).val@.len() > 0
        &&& forall|j: int|
            #![trigger self.free@[j]]
            0 <= j < self.free@.len() ==> 0 <= self.free@[j] < self.slots@.len()
                && self.slots@[self.free@[j] as int] is None
        &&& forall|j1: int, j2: int|
            #![trigger self.free@[j1], self.free@[j2]]
            0 <= j1 < self.free@.len() && 0 <= j2 < self.free@.len() && j1 != j2
                ==> self.free@[j1] != self.free@[j2]
        &&& self.cur_size == total_size(self.slots@)
        &&& self.cur_size <= self.capacity
        &&& self.cur_size == sum_bytes(self.entries(), self.entries().dom())
    }

    /// `lfu_cnt` is the least use count of a stored entry, when there is one.
    pub closed spec fn min_freq_correct(&self) -> bool {
        (exists|i: int| #[trigger] self.occupied(i)) ==> {
            &&& exists|i: int| #[trigger] self.occupied(i) && self.slot(i).freq_cnt == self.lfu_cnt
            &&& forall|i: int| #[trigger] self.occupied(i) ==> self.lfu_cnt <= self.slot(i).freq_cnt
        }
    }
}

impl CacheStore {
    /// No slot stands twice in a bucket.
    proof fn lemma_bucket_unique(&self, f: u64, p: int, q: int)
        requires
            self.buckets@.contains_key(f),
            self.bucket_ok(f),
            0 <= p < self.buckets@[f].view().len(),
            0 <= q < self.buckets@[f].view().len(),
            self.buckets@[f].view()[p] == self.buckets@[f].view()[q],
        ensures
            p == q,
    {
        let b = self.buckets@[f];
        b.lemma_handles();
        assert(self.slot(b.view()[p] as int).node == b.handles()[p]);
        assert(self.slot(b.view()[q] as int).node == b.handles()[q]);
    }

    /// A stored entry holds at least one byte, so the shard holds bytes
    /// exactly when some slot is in use.
    proof fn lemma_occupied_iff_bytes(&self)
        requires
            self.wf_core(),
        ensures
            self.cur_size > 0 <==> exists|i: int| #[trigger] self.occupied(i),
    {
        if self.cur_size > 0 {
            lemma_total_positive(self.slots@);
            let i = choose|i: int| 0 <= i < self.slots@.len() && #[trigger] self.slots@[i] is Some;
            assert(self.occupied(i));
        } else {
            assert forall|i: int| !#[trigger] self.occupied(i) by {
                if self.occupied(i) {
                    assert(self.slots@[i] is Some);
                    lemma_total_update(self.slots@, i, None);
                }
            }
        }
    }

    /// Consistency does not depend on `lfu_cnt`.
    proof fn lemma_wf_core_frame(a: CacheStore, b: CacheStore)
        requires
            a.wf_core(),
            a.slot_of == b.slot_of,
            a.slots == b.slots,
            a.free == b.free,
            a.buckets == b.buckets,
            a.clock == b.clock,
            a.capacity == b.capacity,
            a.cur_size == b.cur_size,
        ensures
            b.wf_core(),
            b.entries() == a.entries(),
    {
        assert forall|f: u64| #[trigger] b.buckets@.contains_key(f) implies b.bucket_ok(f) by {
            assert(a.bucket_ok(f));
        }
        assert forall|i: int| 0 <= i < b.slots@.len() && #[trigger] b.slots@[i] is Some implies b.in_bucket(i) by {
            assert(a.in_bucket(i));
        }
        assert(b.entries() =~= a.entries());
    }

    /// Whether the bucket of use count `f` holds anything.
    fn bucket_nonempty(&self, f: u64) -> (r: bool)
        requires
            self.wf_core(),
        ensures
            r == (self.buckets@.contains_key(f) && self.buckets@[f].view().len() > 0),
    {
        match self.buckets.get(&f) {
            Some(b) => b.size() > 0,
            None => false,
        }
    }

    /// After a removal, moves `lfu_cnt` up to the least use count in use.
    fn advance_min(&mut self)
        requires
            old(self).wf_core(),
            forall|i: int| #[trigger] old(self).occupied(i) ==> old(self).lfu_cnt <= old(self).slot(i).freq_cnt,
        ensures
            final(self).wf(),
            final(self).entries() == old(self).entries(),
            final(self).clock() == old(self).clock(),
            final(self).capacity() == old(self).capacity(),
            final(self).size() == old(self).size(),
    {
        proof {
            self.lemma_occupied_iff_bytes();
        }
        if self.cur_size == 0 {
            return;
        }
        let ghost j = choose|j: int| #[trigger] self.occupied(j);
        let ghost m = self.slot(j).freq_cnt;
        let mut cnt = self.lfu_cnt;
        while !self.bucket_nonempty(cnt)
            invariant
                self.wf_core(),
                self.occupied(j),
                m == self.slot(j).freq_cnt,
                cnt <= m,
                forall|i: int| #[trigger] self.occupied(i) ==> cnt <= self.slot(i).freq_cnt,
            decreases m - cnt,
        {
            proof {
                assert forall|i: int| #[trigger] self.occupied(i) implies cnt < self.slot(i).freq_cnt by {
                    assert(self.slots@[i] is Some);
                    assert(self.in_bucket(i));
                }
                assert(self.slots@[j] is Some);
            }
            cnt = cnt + 1;
        }
        proof {
            assert(self.bucket_ok(cnt));
            let i0 = self.buckets@[cnt].view()[0] as int;
            assert(self.occupied(i0));
        }
        let ghost before = *self;
        self.lfu_cnt = cnt;
        proof {
            Self::lemma_wf_core_frame(before, *self);
            assert forall|i: int| #[trigger] self.occupied(i) implies self.lfu_cnt <= self.slot(i).freq_cnt by {
                assert(before.occupied(i));
            }
            let i0 = self.buckets@[cnt].view()[0] as int;
            assert(before.occupied(i0));
            assert(self.occupied(i0));
        }
    }

    /// Removes the entry in slot `i`, with its node.
    #[verifier::spinoff_prover]
    #[verifier::rlimit(100)]
    fn evict_slot(&mut self, i: usize)
        requires
            old(self).wf_core(),
            old(self).occupied(i as int),
        ensures
            final(self).wf_core(),
            final(self).lfu_cnt == old(self).lfu_cnt,
            final(self).entries() == old(self).entries().remove(old(self).slot(i as int).key@),
            final(self).clock() == old(self).clock(),
            final(self).capacity() == old(self).capacity(),
            final(self).size() + old(self).slot(i as int).val@.len() == old(self).size(),
            forall|j: int| #[trigger] final(self).occupied(j) ==> old(self).occupied(j) && final(self).slot(j) == old(self).slot(j),
    {
        let ghost old_slots = self.slots@;
        let ghost k = self.slot(i as int).key@;
        let ghost f = self.slot(i as int).freq_cnt;
        let ghost ob = self.buckets@[f];
        let ghost p = choose|p: int| 0 <= p < ob.view().len() && #[trigger] ob.view()[p] as int == i as int;
        proof {
            assert(old_slots[i as int] is Some);
            assert(self.in_bucket(i as int));
            assert(self.bucket_ok(f));
            assert(ob.view()[p] as int == i as int);
            assert(ob.handles()[p] == self.slot(i as int).node);
            ob.lemma_handles();
        }
        let len = match &self.slots[i] {
            Some(v) => {
                self.slot_of.remove(&v.key);
                match self.buckets.remove(&v.freq_cnt) {
                    Some(mut b) => {
                        proof {
                            assert(b == ob);
                            assert(b.handles().contains(v.node));
                        }
                        b.erase(v.node);
                        self.buckets.insert(v.freq_cnt, b);
                    },
                    None => {},
                }
                v.val.len()
            },
            None => 0,
        };
        self.slots.set(i, None);
        self.free.push(i);
        proof {
            lemma_total_update(old_slots, i as int, None);
            assert(self.slots@ == old_slots.update(i as int, None));
        }
        self.cur_size = self.cur_size - len;
        proof {
            let nb = self.buckets@[f];
            let p2 = choose|p2: int|
                0 <= p2 < ob.handles().len() && ob.handles()[p2] == old(self).slot(i as int).node
                    && nb.handles() == ob.handles().remove(p2) && nb.view() == ob.view().remove(p2);
            assert(p2 == p);
            assert forall|q: int| 0 <= q < ob.view().len() && q != p implies ob.view()[q] as int != i as int by {
                if ob.view()[q] as int == i as int {
                    old(self).lemma_bucket_unique(f, p, q);
                }
            }
            assert forall|k2: Seq<char>| #[trigger] self.slot_of@.contains_key(k2) implies self.occupied(
                self.slot_of@[k2] as int,
            ) && self.slot(self.slot_of@[k2] as int).key@ == k2 by {
                assert(old(self).slot_of@.contains_key(k2));
            }
            assert forall|j: int| 0 <= j < self.slots@.len() && #[trigger] self.slots@[j] is Some
                implies self.slot_of@.contains_key(self.slot(j).key@) && self.slot_of@[self.slot(
                j,
            ).key@] == j by {
                assert(old_slots[j] is Some);
                assert(old(self).slot_of@.contains_key(self.slot(j).key@));
            }
            assert forall|f2: u64| #[trigger] self.buckets@.contains_key(f2) implies self.bucket_ok(f2) by {
                assert(old(self).buckets@.contains_key(f2));
                assert(old(self).bucket_ok(f2));
                let b = self.buckets@[f2];
                if f2 != f {
                    assert(b == old(self).buckets@[f2]);
                    assert forall|q: int| 0 <= q < b.view().len() implies b.view()[q] as int != i as int by {
                        assert(old(self).slot(b.view()[q] as int).freq_cnt == f2);
                    }
                } else {
                    assert forall|q: int| 0 <= q < b.view().len() implies b.view()[q] == ob.view()[if q < p { q } else { q + 1 }]
                        && b.handles()[q] == ob.handles()[if q < p { q } else { q + 1 }] by {}
                }
            }
            assert forall|j: int| 0 <= j < self.slots@.len() && #[trigger] self.slots@[j] is Some implies self.in_bucket(j) by {
                assert(old_slots[j] is Some);
                assert(old(self).in_bucket(j));
                let fj = self.slot(j).freq_cnt;
                let bj = old(self).buckets@[fj];
                let q = choose|q: int| 0 <= q < bj.view().len() && #[trigger] bj.view()[q] as int == j;
                if fj == f {
                    assert(q != p);
                    let q2 = if q < p { q } else { q - 1 };
                    assert(self.buckets@[fj].view()[q2] as int == j);
                } else {
                    assert(self.buckets@[fj].view()[q] as int == j);
                }
            }
            assert forall|j: int| 0 <= j < self.slots@.len() && #[trigger] self.slots@[j] is Some
                implies 1 <= self.slot(j).freq_cnt <= self.clock && self.slot(j).stamp < self.clock
                && self.slot(j).val@.len() > 0 by {
                assert(old_slots[j] is Some);
            }
            assert forall|j: int| 0 <= j < self.free@.len() implies 0 <= #[trigger] self.free@[j]
                < self.slots@.len() && self.slots@[self.free@[j] as int] is None by {
                if j < self.free@.len() - 1 {
                    assert(old(self).free@[j] == self.free@[j]);
                }
            }
            assert forall|j1: int, j2: int|
                0 <= j1 < self.free@.len() && 0 <= j2 < self.free@.len() && j1 != j2 implies #[trigger] self.free@[j1]
                != #[trigger] self.free@[j2] by {
                let n = self.free@.len() - 1;
                if j1 < n && j2 < n {
                    assert(old(self).free@[j1] == self.free@[j1]);
                    assert(old(self).free@[j2] == self.free@[j2]);
                } else if j1 < n {
                    assert(old(self).free@[j1] == self.free@[j1]);
                } else if j2 < n {
                    assert(old(self).free@[j2] == self.free@[j2]);
                }
            }
            assert(self.entries() =~= old(self).entries().remove(k));
            let old_e = old(self).entries();
            let new_e = self.entries();
            old(self).slot_of.lemma_finite();
            assert(old_e.dom() =~= old(self).slot_of@.dom());
            assert(old_e.contains_key(k));
            lemma_sum_remove(old_e, old_e.dom(), k);
            assert(new_e.dom() =~= old_e.dom().remove(k));
            lemma_sum_congruent(new_e, old_e, new_e.dom());
            assert forall|j: int| #[trigger] self.occupied(j) implies old(self).occupied(j) && self.slot(j) == old(self).slot(j) by {
                assert(old_slots[j] is Some);
            }
        }
    }
}

impl CacheStore {
    /// An empty shard that may hold `capacity_in_mb` mebibytes.
    pub fn new(capacity_in_mb: usize) -> (r: CacheStore)
        requires
            capacity_in_mb * 1048576 <= usize::MAX,
        ensures
            r.wf(),
            r.entries() == Map::<Seq<char>, EntryView>::empty(),
            r.capacity() == capacity_in_mb * 1048576,
            r.size() == 0,
            r.clock() == 0,
            r.min_freq() == 1,
    {
        let r = CacheStore {
            slot_of: KeyIndex::new(),
            slots: Vec::new(),
            free: Vec::new(),
            buckets: HashMap::new(),
            lfu_cnt: 1,
            clock: 0,
            capacity: capacity_in_mb * 1048576,
            cur_size: 0,
        };
        proof {
            assert(r.entries() =~= Map::<Seq<char>, EntryView>::empty());
        }
        r
    }

    /// A stored entry holds at least one byte, so a shard is empty exactly
    /// when it holds no bytes.
    pub proof fn lemma_empty_iff_no_bytes(&self)
        requires
            self.wf(),
        ensures
            self.size() == 0 <==> self.entries().dom() =~= Set::<Seq<char>>::empty(),
    {
        if self.size() > 0 {
            lemma_total_positive(self.slots@);
            let i = choose|i: int| 0 <= i < self.slots@.len() && #[trigger] self.slots@[i] is Some;
            assert(self.entries().contains_key(self.slot(i).key@));
        } else {
            assert forall|k: Seq<char>| !#[trigger] self.entries().contains_key(k) by {
                if self.entries().contains_key(k) {
                    let i = self.slot_of@[k] as int;
                    assert(self.slots@[i] is Some);
                    lemma_total_update(self.slots@, i, None);
                }
            }
        }
    }

    /// The bytes a shard holds are the sum of the lengths of its stored
    /// values, which are none of them empty, and never exceed its capacity.
    pub proof fn lemma_bytes_held(&self)
        requires
            self.wf(),
        ensures
            self.entries().dom().finite(),
            self.size() == sum_bytes(self.entries(), self.entries().dom()),
            self.size() <= self.capacity(),
            forall|k: Seq<char>| #[trigger] self.entries().contains_key(k) ==> self.entries()[k].0.len() > 0,
    {
        self.slot_of.lemma_finite();
        assert(self.entries().dom() =~= self.slot_of@.dom());
        assert forall|k: Seq<char>| #[trigger] self.entries().contains_key(k) implies self.entries()[k].0.len() > 0 by {
            let i = self.slot_of@[k] as int;
            assert(self.slots@[i] is Some);
        }
    }

    /// Every stored count is at least one and at most the clock, and every
    /// stamp is below the clock; so a count can grow by one while the clock
    /// has stamps left.
    pub proof fn lemma_counts_below_clock(&self)
        requires
            self.wf(),
        ensures
            forall|k: Seq<char>|
                #[trigger] self.entries().contains_key(k) ==> 1 <= self.entries()[k].1 <= self.clock()
                    && self.entries()[k].2 < self.clock(),
    {
        assert forall|k: Seq<char>| #[trigger] self.entries().contains_key(k) implies 1 <= self.entries()[k].1
            <= self.clock() && self.entries()[k].2 < self.clock() by {
            let i = self.slot_of@[k] as int;
            assert(self.slots@[i] is Some);
        }
    }

    /// A shard never holds more bytes than it may.
    pub proof fn lemma_size_within_capacity(&self)
        requires
            self.wf(),
        ensures
            self.size() <= self.capacity(),
    {
    }

    /// Removes `key` and its bytes, if it is stored.
    pub fn evict_key(&mut self, key: String)
        requires
            old(self).wf(),
        ensures
            final(self).wf(),
            final(self).entries() == old(self).entries().remove(key@),
            final(self).clock() == old(self).clock(),
            final(self).capacity() == old(self).capacity(),
            old(self).entries().contains_key(key@) ==> final(self).size() + old(self).entries()[key@].0.len()
                == old(self).size(),
            !old(self).entries().contains_key(key@) ==> final(self).size() == old(self).size(),
    {
        match self.slot_of.get(&key) {
            Some(i) => {
                proof {
                    assert(self.slots@[i as int] is Some);
                }
                self.evict_slot(i);
                self.advance_min();
            },
            None => {
                proof {
                    assert(old(self).entries() =~= old(self).entries().remove(key@));
                }
            },
        }
    }

    /// Removes the entry of least rank: the least used one, and among those
    /// the least recently used.
    pub fn evict(&mut self)
        requires
            old(self).wf(),
        ensures
            final(self).wf(),
            final(self).clock() == old(self).clock(),
            final(self).capacity() == old(self).capacity(),
            old(self).size() == 0 ==> final(self).entries() == old(self).entries() && final(self).size() == 0,
            old(self).size() > 0 ==> exists|m: Seq<char>|
                #[trigger] old(self).entries().contains_key(m) && (forall|k2: Seq<char>|
                    #[trigger] old(self).entries().contains_key(k2) && k2 != m ==> rank_lt(
                        entry_rank(old(self).entries()[m]),
                        entry_rank(old(self).entries()[k2]),
                    )) && final(self).entries() == old(self).entries().remove(m) && final(self).size() + old(self).entries()[m].0.len() == old(self).size(),
    {
        proof {
            self.lemma_empty_iff_no_bytes();
            self.lemma_occupied_iff_bytes();
        }
        if self.cur_size == 0 {
            return;
        }
        let back = match self.buckets.get(&self.lfu_cnt) {
            Some(b) => b.back(),
            None => None,
        };
        proof {
            let j = choose|j: int| #[trigger] self.occupied(j) && self.slot(j).freq_cnt == self.lfu_cnt;
            assert(self.slots@[j] is Some);
            assert(self.in_bucket(j));
        }
        match back {
            Some(i) => {
                let ghost f = self.lfu_cnt;
                let ghost b = self.buckets@[f];
                let ghost m = self.slot(i as int).key@;
                let ghost old_entries = self.entries();
                proof {
                    assert(self.bucket_ok(f));
                    let last = b.view().len() - 1;
                    assert(b.view()[last] == i);
                    assert(self.occupied(i as int));
                    assert(self.slots@[i as int] is Some);
                    assert(old_entries.contains_key(m));
                    assert forall|k2: Seq<char>|
                        #[trigger] old_entries.contains_key(k2) && k2 != m implies rank_lt(
                        entry_rank(old_entries[m]),
                        entry_rank(old_entries[k2]),
                    ) by {
                        let j = self.slot_of@[k2] as int;
                        assert(self.slots@[j] is Some);
                        assert(self.occupied(j));
                        if self.slot(j).freq_cnt == f {
                            assert(self.in_bucket(j));
                            let q = choose|q: int| 0 <= q < b.view().len() && #[trigger] b.view()[q] as int == j;
                            assert(j != i as int);
                            assert(q != last);
                            assert(self.slot(b.view()[q] as int).stamp > self.slot(b.view()[last] as int).stamp);
                        }
                    }
                }
                self.evict_slot(i);
                self.advance_min();
            },
            None => {},
        }
    }
}

impl CacheStore {
    /// The buckets after slot `i` leaves position `p` of bucket `f` and
    /// enters the front of bucket `f + 1` with the newest stamp.
    #[verifier::spinoff_prover]
    #[verifier::rlimit(100)]
    proof fn lemma_touch_buckets(
        a: CacheStore,
        b: CacheStore,
        i: int,
        f: u64,
        p: int,
        ob: Dlinklist<usize>,
        b2_old: Dlinklist<usize>,
        h: usize,
    )
        requires
            a.wf_core(),
            a.occupied(i),
            f == a.slot(i).freq_cnt,
            f < u64::MAX,
            a.buckets@.contains_key(f),
            ob == a.buckets@[f],
            0 <= p < ob.view().len(),
            ob.view()[p] as int == i,
            forall|q: int| 0 <= q < ob.view().len() && q != p ==> ob.view()[q] as int != i,
            b.slots@.len() == a.slots@.len(),
            forall|x: int| 0 <= x < a.slots@.len() && x != i ==> b.slots@[x] == a.slots@[x],
            b.slots@[i] is Some,
            b.slot(i).freq_cnt == f + 1,
            b.slot(i).stamp == a.clock,
            b.slot(i).node == h,
            b.buckets@.contains_key(f),
            b.buckets@[f].wf(),
            b.buckets@[f].view() == ob.view().remove(p),
            b.buckets@[f].handles() == ob.handles().remove(p),
            b.buckets@.contains_key((f + 1) as u64),
            b.buckets@[(f + 1) as u64].wf(),
            b.buckets@[(f + 1) as u64].view() == seq![i as usize] + b2_old.view(),
            b.buckets@[(f + 1) as u64].handles() == seq![h] + b2_old.handles(),
            b2_old.wf(),
            a.buckets@.contains_key((f + 1) as u64) ==> b2_old == a.buckets@[(f + 1) as u64],
            !a.buckets@.contains_key((f + 1) as u64) ==> b2_old.view().len() == 0,
            forall|x: u64| x != f && x != f + 1 ==> (b.buckets@.contains_key(x) <==> a.buckets@.contains_key(x)),
            forall|x: u64| x != f && x != f + 1 && a.buckets@.contains_key(x) ==> b.buckets@[x] == a.buckets@[x],
        ensures
            b.buckets_agree(),
    {
        let g = (f + 1) as u64;
        assert(a.bucket_ok(f));
        ob.lemma_handles();
        assert forall|f2: u64| #[trigger] b.buckets@.contains_key(f2) implies b.bucket_ok(f2) by {
            let bb = b.buckets@[f2];
            if f2 == g {
                b2_old.lemma_handles();
                if a.buckets@.contains_key(g) {
                    assert(a.bucket_ok(g));
                }
                assert forall|q: int| 0 <= q < b2_old.view().len() implies b2_old.view()[q] as int != i
                    && a.occupied(b2_old.view()[q] as int) && a.slot(b2_old.view()[q] as int).freq_cnt == f2
                    && a.slot(b2_old.view()[q] as int).node == b2_old.handles()[q] by {
                    assert(a.buckets@.contains_key(g));
                }
                assert forall|q: int| 1 <= q < bb.view().len() implies bb.view()[q] == b2_old.view()[q - 1]
                    && bb.handles()[q] == b2_old.handles()[q - 1] by {}
                assert forall|q: int| 0 <= q < bb.view().len() implies #[trigger] bb.view()[q] as int == i || (
                    b.slot(bb.view()[q] as int) == a.slot(bb.view()[q] as int) && a.occupied(bb.view()[q] as int)) by {
                    if q > 0 {
                        assert(bb.view()[q] == b2_old.view()[q - 1]);
                        assert(a.occupied(b2_old.view()[q - 1] as int));
                        assert(a.slots@[bb.view()[q] as int] is Some);
                    }
                }
                assert forall|q1: int, q2: int| 0 <= q1 < q2 < bb.view().len() implies b.slot(
                    #[trigger] bb.view()[q1] as int,
                ).stamp > b.slot(#[trigger] bb.view()[q2] as int).stamp by {
                    assert(a.slots@[bb.view()[q2] as int] is Some);
                    if q1 > 0 {
                        assert(b2_old.view()[q1 - 1] == bb.view()[q1]);
                        assert(b2_old.view()[q2 - 1] == bb.view()[q2]);
                    }
                }
            } else if f2 == f {
                assert(bb.view() == ob.view().remove(p));
                assert(bb.handles() == ob.handles().remove(p));
                assert forall|q: int| 0 <= q < p && q < bb.view().len() implies bb.view()[q] == ob.view()[q]
                    && bb.handles()[q] == ob.handles()[q] by {
                    assert(ob.view().remove(p)[q] == ob.view()[q]);
                    assert(ob.handles().remove(p)[q] == ob.handles()[q]);
                }
                assert forall|q: int| p <= q < bb.view().len() implies bb.view()[q] == ob.view()[q + 1]
                    && bb.handles()[q] == ob.handles()[q + 1] by {
                    assert(ob.view().remove(p)[q] == ob.view()[q + 1]);
                    assert(ob.handles().remove(p)[q] == ob.handles()[q + 1]);
                }
                assert forall|q: int| 0 <= q < bb.view().len() implies #[trigger] bb.view()[q] as int != i && a.occupied(
                    bb.view()[q] as int) && b.slot(bb.view()[q] as int) == a.slot(bb.view()[q] as int) by {
                    let q2 = if q < p { q } else { q + 1 };
                    assert(bb.view()[q] == ob.view()[q2]);
                    assert(a.occupied(ob.view()[q2] as int));
                }
                assert forall|q1: int, q2: int| 0 <= q1 < q2 < bb.view().len() implies b.slot(
                    #[trigger] bb.view()[q1] as int,
                ).stamp > b.slot(#[trigger] bb.view()[q2] as int).stamp by {
                    let r1 = if q1 < p { q1 } else { q1 + 1 };
                    let r2 = if q2 < p { q2 } else { q2 + 1 };
                    assert(bb.view()[q1] == ob.view()[r1]);
                    assert(bb.view()[q2] == ob.view()[r2]);
                }
            } else {
                assert(a.buckets@.contains_key(f2));
                assert(a.bucket_ok(f2));
                assert forall|q: int| 0 <= q < bb.view().len() implies bb.view()[q] as int != i by {
                    assert(a.slot(bb.view()[q] as int).freq_cnt == f2);
                }
            }
        }
        assert forall|j: int| 0 <= j < b.slots@.len() && #[trigger] b.slots@[j] is Some implies b.in_bucket(j) by {
            if j == i {
                assert(b.buckets@[g].view()[0] as int == j);
            } else {
                assert(a.slots@[j] is Some);
                assert(a.in_bucket(j));
                let fj = b.slot(j).freq_cnt;
                let bj = a.buckets@[fj];
                let q = choose|q: int| 0 <= q < bj.view().len() && #[trigger] bj.view()[q] as int == j;
                if fj == f {
                    let q2 = if q < p { q } else { q - 1 };
                    assert(b.buckets@[fj].view()[q2] as int == j);
                } else if fj == g {
                    assert(b.buckets@[fj].view()[q + 1] as int == j);
                } else {
                    assert(b.buckets@[fj].view()[q] as int == j);
                }
            }
        }
    }

    /// The buckets after the free slot `i` enters the front of bucket `g`
    /// with the newest stamp.
    #[verifier::spinoff_prover]
    #[verifier::rlimit(100)]
    proof fn lemma_insert_buckets(a: CacheStore, b: CacheStore, i: int, g: u64, b_old: Dlinklist<usize>, h: usize)
        requires
            a.wf_core(),
            0 <= i <= a.slots@.len(),
            i <= usize::MAX,
            i < a.slots@.len() ==> a.slots@[i] is None,
            b.slots@.len() == (if i == a.slots@.len() { a.slots@.len() + 1 } else { a.slots@.len() + 0 }),
            forall|x: int| 0 <= x < a.slots@.len() && x != i ==> b.slots@[x] == a.slots@[x],
            b.slots@[i] is Some,
            b.slot(i).freq_cnt == g,
            b.slot(i).stamp == a.clock,
            b.slot(i).node == h,
            b.buckets@.contains_key(g),
            b.buckets@[g].wf(),
            b.buckets@[g].view() == seq![i as usize] + b_old.view(),
            b.buckets@[g].handles() == seq![h] + b_old.handles(),
            b_old.wf(),
            a.buckets@.contains_key(g) ==> b_old == a.buckets@[g],
            !a.buckets@.contains_key(g) ==> b_old.view().len() == 0,
            forall|x: u64| x != g ==> (b.buckets@.contains_key(x) <==> a.buckets@.contains_key(x)),
            forall|x: u64| x != g && a.buckets@.contains_key(x) ==> b.buckets@[x] == a.buckets@[x],
        ensures
            b.buckets_agree(),
    {
        assert forall|f2: u64| #[trigger] b.buckets@.contains_key(f2) implies b.bucket_ok(f2) by {
            let bb = b.buckets@[f2];
            if f2 == g {
                b_old.lemma_handles();
                if a.buckets@.contains_key(g) {
                    assert(a.bucket_ok(g));
                }
                assert forall|q: int| 0 <= q < b_old.view().len() implies b_old.view()[q] as int != i
                    && a.occupied(b_old.view()[q] as int) && a.slot(b_old.view()[q] as int).freq_cnt == f2
                    && a.slot(b_old.view()[q] as int).node == b_old.handles()[q] by {
                    assert(a.buckets@.contains_key(g));
                }
                assert forall|q: int| 1 <= q < bb.view().len() implies bb.view()[q] == b_old.view()[q - 1]
                    && bb.handles()[q] == b_old.handles()[q - 1] by {}
                assert forall|q: int| 0 <= q < bb.view().len() implies #[trigger] bb.view()[q] as int == i || (
                    b.slot(bb.view()[q] as int) == a.slot(bb.view()[q] as int) && a.occupied(bb.view()[q] as int)) by {
                    if q > 0 {
                        let x = b_old.view()[q - 1];
                        assert(bb.view()[q] == x);
                        assert(a.occupied(x as int));
                        assert(x as int != i);
                        assert(b.slots@[x as int] == a.slots@[x as int]);
                    }
                }
                assert forall|q1: int, q2: int| 0 <= q1 < q2 < bb.view().len() implies b.slot(
                    #[trigger] bb.view()[q1] as int,
                ).stamp > b.slot(#[trigger] bb.view()[q2] as int).stamp by {
                    assert(a.slots@[bb.view()[q2] as int] is Some);
                    if q1 > 0 {
                        assert(b_old.view()[q1 - 1] == bb.view()[q1]);
                        assert(b_old.view()[q2 - 1] == bb.view()[q2]);
                    }
                }
            } else {
                assert(a.buckets@.contains_key(f2));
                assert(a.bucket_ok(f2));
                assert forall|q: int| 0 <= q < bb.view().len() implies bb.view()[q] as int != i by {
                    assert(a.occupied(bb.view()[q] as int));
                }
            }
        }
        assert forall|j: int| 0 <= j < b.slots@.len() && #[trigger] b.slots@[j] is Some implies b.in_bucket(j) by {
            if j == i {
                assert(b.buckets@[g].view()[0] as int == j);
            } else {
                assert(a.slots@[j] is Some);
                assert(a.in_bucket(j));
                let fj = b.slot(j).freq_cnt;
                let bj = a.buckets@[fj];
                let q = choose|q: int| 0 <= q < bj.view().len() && #[trigger] bj.view()[q] as int == j;
                if fj == g {
                    assert(b.buckets@[fj].view()[q + 1] as int == j);
                } else {
                    assert(b.buckets@[fj].view()[q] as int == j);
                }
            }
        }
    }
}

/// The entry that a touch leaves behind: one more use, and the newest stamp.
pub open spec fn touched(e: EntryView, clock: u64) -> EntryView {
    (e.0, (e.1 + 1) as u64, clock)
}

impl CacheStore {
    /// Counts one more use of `key` and makes it the most recent entry of
    /// its new frequency bucket. Nothing changes for a missing key, or once
    /// the shard has used up its stamps.
    #[verifier::spinoff_prover]
    #[verifier::rlimit(100)]
    pub fn touch(&mut self, key: String)
        requires
            old(self).wf(),
        ensures
            final(self).wf(),
            final(self).capacity() == old(self).capacity(),
            final(self).size() == old(self).size(),
            old(self).entries().contains_key(key@) ==> old(self).entries()[key@].1 <= old(self).clock(),
            old(self).entries().contains_key(key@) && old(self).clock() < u64::MAX ==> {
                &&& final(self).entries() == old(self).entries().insert(
                    key@,
                    touched(old(self).entries()[key@], old(self).clock()),
                )
                &&& final(self).clock() == old(self).clock() + 1
                &&& final(self).bucket_keys((old(self).entries()[key@].1 + 1) as u64)[0] == key@
            },
            !(old(self).entries().contains_key(key@) && old(self).clock() < u64::MAX) ==> final(self).entries() == old(self).entries() && final(self).clock() == old(self).clock(),
    {
        proof {
            self.lemma_counts_below_clock();
        }
        if self.clock == u64::MAX {
            return;
        }
        let i = match self.slot_of.get(&key) {
            Some(i) => i,
            None => {
                return;
            },
        };
        let ghost old_slots = self.slots@;
        proof {
            assert(self.slots@[i as int] is Some);
            assert(self.in_bucket(i as int));
        }
        let mut v = match self.slots[i].take() {
            Some(v) => v,
            None => {
                return;
            },
        };
        let ghost old_v = v;
        let f = v.freq_cnt;
        let ghost ob = self.buckets@[f];
        let ghost p = choose|p: int| 0 <= p < ob.view().len() && #[trigger] ob.view()[p] as int == i as int;
        proof {
            assert(old(self).bucket_ok(f));
            assert(ob.view()[p] as int == i as int);
            assert(ob.handles()[p] == v.node);
            ob.lemma_handles();
            assert forall|q: int| 0 <= q < ob.view().len() && q != p implies ob.view()[q] as int != i as int by {
                if ob.view()[q] as int == i as int {
                    old(self).lemma_bucket_unique(f, p, q);
                }
            }
        }
        let mut emptied = false;
        match self.buckets.remove(&f) {
            Some(mut b) => {
                proof {
                    assert(b.handles().contains(v.node));
                }
                b.erase(v.node);
                emptied = b.size() == 0;
                self.buckets.insert(f, b);
            },
            None => {},
        }
        let ghost mid = self.buckets@;
        let mut b2 = match self.buckets.remove(&(f + 1)) {
            Some(b) => {
                proof {
                    assert(old(self).buckets@.contains_key((f + 1) as u64));
                    assert(b == old(self).buckets@[(f + 1) as u64]);
                    assert(old(self).bucket_ok((f + 1) as u64));
                }
                b
            },
            None => {
                proof {
                    assert(!old(self).buckets@.contains_key((f + 1) as u64));
                }
                Dlinklist::new()
            },
        };
        let ghost b2_old = b2;
        proof {
            if old(self).buckets@.contains_key((f + 1) as u64) {
                assert(b2_old == old(self).buckets@[(f + 1) as u64]);
            } else {
                assert(b2_old.view().len() == 0);
            }
        }
        let h = b2.push_front(i);
        self.buckets.insert(f + 1, b2);
        v.freq_cnt = f + 1;
        v.stamp = self.clock;
        v.node = h;
        let ghost new_v = v;
        self.slots.set(i, Some(v));
        self.clock = self.clock + 1;
        if emptied && self.lfu_cnt == f {
            self.lfu_cnt = f + 1;
        }
        proof {
            assert(self.slots@ == old_slots.update(i as int, Some(new_v)));
            lemma_total_update(old_slots, i as int, Some(new_v));
            let nb = mid[f];
            let p2 = choose|p2: int|
                0 <= p2 < ob.handles().len() && ob.handles()[p2] == old_v.node && nb.handles() == ob.handles().remove(p2)
                    && nb.view() == ob.view().remove(p2);
            assert(p2 == p);
            assert forall|k2: Seq<char>| #[trigger] self.slot_of@.contains_key(k2) implies self.occupied(
                self.slot_of@[k2] as int,
            ) && self.slot(self.slot_of@[k2] as int).key@ == k2 by {
                assert(old(self).slot_of@.contains_key(k2));
            }
            assert forall|j: int| 0 <= j < self.slots@.len() && #[trigger] self.slots@[j] is Some
                implies self.slot_of@.contains_key(self.slot(j).key@) && self.slot_of@[self.slot(
                j,
            ).key@] == j by {
                assert(old_slots[j] is Some);
            }
            assert(self.buckets@[f] == mid[f]);
            assert forall|x: u64| x != f && x != f + 1 implies (self.buckets@.contains_key(x) <==> old(self).buckets@.contains_key(x)) by {}
            assert forall|x: u64| x != f && x != f + 1 && old(self).buckets@.contains_key(x) implies self.buckets@[x] == old(self).buckets@[x] by {}
            Self::lemma_touch_buckets(*old(self), *self, i as int, f, p, ob, b2_old, h);
            assert forall|j: int| 0 <= j < self.slots@.len() && #[trigger] self.slots@[j] is Some
                implies 1 <= self.slot(j).freq_cnt <= self.clock && self.slot(j).stamp < self.clock
                && self.slot(j).val@.len() > 0 by {
                assert(old_slots[j] is Some);
            }
            assert forall|j: int| 0 <= j < self.free@.len() implies 0 <= #[trigger] self.free@[j]
                < self.slots@.len() && self.slots@[self.free@[j] as int] is None by {
                assert(old_slots[self.free@[j] as int] is None);
            }
            assert(self.entries() =~= old(self).entries().insert(
                key@,
                touched(old(self).entries()[key@], old(self).clock()),
            ));
            let old_e = old(self).entries();
            let new_e = self.entries();
            old(self).slot_of.lemma_finite();
            assert(old_e.dom() =~= old(self).slot_of@.dom());
            assert(new_e.dom() =~= old_e.dom());
            lemma_sum_remove(old_e, old_e.dom(), key@);
            lemma_sum_remove(new_e, new_e.dom(), key@);
            lemma_sum_congruent(new_e, old_e, new_e.dom().remove(key@));
            // the least use count
            assert(old(self).occupied(i as int));
            let w = choose|w: int| #[trigger] old(self).occupied(w) && old(self).slot(w).freq_cnt == old(self).lfu_cnt;
            assert forall|j: int| #[trigger] self.occupied(j) implies self.lfu_cnt <= self.slot(j).freq_cnt by {
                assert(old_slots[j] is Some);
                assert(old(self).occupied(j));
                if j != i as int && emptied && old(self).lfu_cnt == f && self.slot(j).freq_cnt == f {
                    assert(self.in_bucket(j));
                }
            }
            if emptied && old(self).lfu_cnt == f {
                assert(self.occupied(i as int));
            } else if old(self).lfu_cnt == f {
                let b = self.buckets@[f];
                assert(self.bucket_ok(f));
                assert(self.occupied(b.view()[0] as int));
            } else {
                assert(w != i as int);
                assert(old_slots[w] is Some);
                assert(self.occupied(w));
            }
        }
    }

    /// The bytes stored for `key`, with their time; a hit counts as a use.
    pub fn get(&mut self, key: String) -> (r: Option<FileData>)
        requires
            old(self).wf(),
        ensures
            final(self).wf(),
            final(self).capacity() == old(self).capacity(),
            final(self).size() == old(self).size(),
            r is Some <==> old(self).entries().contains_key(key@),
            r matches Some(d) ==> d.val@ == old(self).entries()[key@].0 && d.last_updated == old(self).stored_time(
                key@,
            ),
            old(self).entries().contains_key(key@) ==> old(self).entries()[key@].1 <= old(self).clock(),
            old(self).entries().contains_key(key@) && old(self).clock() < u64::MAX ==> {
                &&& final(self).entries() == old(self).entries().insert(
                    key@,
                    touched(old(self).entries()[key@], old(self).clock()),
                )
                &&& final(self).clock() == old(self).clock() + 1
            },
            !(old(self).entries().contains_key(key@) && old(self).clock() < u64::MAX) ==> final(self).entries() == old(self).entries() && final(self).clock() == old(self).clock(),
    {
        proof {
            self.lemma_counts_below_clock();
        }
        let res = match self.slot_of.get(&key) {
            Some(i) => {
                proof {
                    assert(self.slots@[i as int] is Some);
                }
                match &self.slots[i] {
                    Some(v) => Some(FileData::new(&v.val, v.last_updated)),
                    None => None,
                }
            },
            None => None,
        };
        if res.is_some() {
            self.touch(key);
        }
        res
    }
}

/// Use count that an insert gives `key`: the count it had, at least one.
pub open spec fn insert_freq(entries: Map<Seq<char>, EntryView>, key: Seq<char>) -> u64 {
    if entries.contains_key(key) && entries[key].1 >= 1 {
        entries[key].1
    } else {
        1
    }
}

/// Whether an insert of `len` bytes is refused and leaves the shard as it is.
pub open spec fn insert_refused(len: nat, capacity: nat, clock: u64) -> bool {
    len == 0 || len > capacity || clock == u64::MAX
}

impl CacheStore {
    /// What an insert of `value` under `key` does to a shard `old`,
    /// giving `new`.
    pub open spec fn insert_outcome(old: CacheStore, new: CacheStore, key: Seq<char>, value: Seq<u8>) -> bool {
        &&& new.capacity() == old.capacity()
        &&& (insert_refused(value.len(), old.capacity(), old.clock()) ==> new.entries() == old.entries() && new.clock() == old.clock()
                && new.size() == old.size())
        &&& (!insert_refused(value.len(), old.capacity(), old.clock()) ==> {
                let pre = old.entries().remove(key);
                &&& new.clock() == old.clock() + 1
                &&& new.entries().contains_key(key)
                &&& new.entries()[key] == (
                    value,
                    insert_freq(old.entries(), key),
                    old.clock(),
                )
                &&& forall|k2: Seq<char>|
                    #[trigger] new.entries().contains_key(k2) && k2 != key
                        ==> pre.contains_key(k2) && new.entries()[k2] == pre[k2]
                &&& forall|e: Seq<char>, s2: Seq<char>|
                    #[trigger] pre.contains_key(e) && !new.entries().contains_key(e)
                        && #[trigger] new.entries().contains_key(s2) && s2 != key
                        ==> rank_lt(entry_rank(pre[e]), entry_rank(pre[s2]))
                &&& forall|e: Seq<char>|
                    #[trigger] pre.contains_key(e) && !new.entries().contains_key(e)
                        ==> exists|m: Seq<char>|
                        #[trigger] pre.contains_key(m) && !new.entries().contains_key(m)
                            && new.size() + pre[m].0.len() > new.capacity()
                            && forall|e2: Seq<char>|
                            #[trigger] pre.contains_key(e2) && !new.entries().contains_key(
                                e2,
                            ) && e2 != m ==> rank_lt(entry_rank(pre[e2]), entry_rank(pre[m]))
            })
    }
}

impl CacheStore {
    /// Stores `value` under `key` and returns the bytes now held. A value
    /// already stored under `key` is replaced, keeping its use count. While
    /// the shard would overflow, the entry of least rank is evicted. An
    /// empty value, or one larger than the shard, is not stored.
    #[verifier::spinoff_prover]
    #[verifier::rlimit(100)]
    pub fn insert(&mut self, key: String, value: &Vec<u8>) -> (r: usize)
        requires
            old(self).wf(),
        ensures
            final(self).wf(),
            r == final(self).size(),
            final(self).capacity() == old(self).capacity(),
            CacheStore::insert_outcome(*old(self), *final(self), key@, value@),
    {
        if value.len() > self.capacity || value.len() == 0 || self.clock == u64::MAX {
            return self.cur_size;
        }
        let mut old_freq_cnt: u64 = 0;
        match self.slot_of.get(&key) {
            Some(i) => {
                proof {
                    assert(self.slots@[i as int] is Some);
                }
                old_freq_cnt = match &self.slots[i] {
                    Some(v) => v.freq_cnt,
                    None => 0,
                };
            },
            None => {},
        }
        self.evict_key(key.clone());
        let ghost pre = self.entries();
        let ghost mut evicted: Set<Seq<char>> = Set::empty();
        let ghost mut last: Seq<char> = key@;
        while value.len() > self.capacity - self.cur_size
            invariant
                self.wf(),
                self.clock() == old(self).clock(),
                self.clock() < u64::MAX,
                old_freq_cnt <= self.clock(),
                self.capacity() == old(self).capacity(),
                0 < value@.len() <= self.capacity(),
                pre == old(self).entries().remove(key@),
                self.entries() == pre.remove_keys(evicted),
                evicted.subset_of(pre.dom()),
                forall|e: Seq<char>, s2: Seq<char>|
                    #[trigger] evicted.contains(e) && #[trigger] self.entries().contains_key(s2)
                        ==> rank_lt(entry_rank(pre[e]), entry_rank(pre[s2])),
                forall|e: Seq<char>| #[trigger] evicted.contains(e) ==> evicted.contains(last),
                evicted.contains(last) ==> self.size() + pre[last].0.len() + value@.len()
                    > self.capacity(),
                evicted.contains(last) ==> forall|e2: Seq<char>|
                    #[trigger] evicted.contains(e2) && e2 != last ==> rank_lt(
                        entry_rank(pre[e2]),
                        entry_rank(pre[last]),
                    ),
            decreases self.size(),
        {
            let ghost before = self.entries();
            let ghost size_before = self.size();
            self.evict();
            proof {
                let m = choose|m: Seq<char>|
                    #[trigger] before.contains_key(m) && (forall|k2: Seq<char>|
                        #[trigger] before.contains_key(k2) && k2 != m ==> rank_lt(
                            entry_rank(before[m]),
                            entry_rank(before[k2]),
                        )) && self.entries() == before.remove(m) && self.size() + before[m].0.len()
                        == size_before;
                assert(pre.contains_key(m) && pre[m] == before[m]);
                assert forall|e: Seq<char>| #[trigger] evicted.contains(e) implies rank_lt(
                    entry_rank(pre[e]),
                    entry_rank(pre[m]),
                ) by {}
                evicted = evicted.insert(m);
                last = m;
                assert(self.entries() =~= pre.remove_keys(evicted));
                assert forall|e: Seq<char>, s2: Seq<char>|
                    #[trigger] evicted.contains(e) && #[trigger] self.entries().contains_key(s2)
                        implies rank_lt(entry_rank(pre[e]), entry_rank(pre[s2])) by {
                    assert(before.contains_key(s2) && before[s2] == pre[s2]);
                    if e != m {
                        assert(rank_lt(entry_rank(pre[e]), entry_rank(pre[m])));
                    }
                }
            }
        }
        let freq: u64 = if old_freq_cnt >= 1 {
            old_freq_cnt
        } else {
            1
        };
        proof {
            assert(!self.entries().contains_key(key@));
        }
        self.place_entry(key, value, freq);
        self.cur_size
    }
}
impl CacheStore {
    /// Stores a new entry for `key`, which the shard does not hold, with
    /// `freq` uses and the newest stamp, in a shard with room for it.
    #[verifier::spinoff_prover]
    #[verifier::rlimit(100)]
    fn place_entry(&mut self, key: String, value: &Vec<u8>, freq: u64)
        requires
            old(self).wf(),
            !old(self).entries().contains_key(key@),
            old(self).clock < u64::MAX,
            1 <= freq <= old(self).clock + 1,
            0 < value@.len(),
            old(self).cur_size + value@.len() <= old(self).capacity,
        ensures
            final(self).wf(),
            final(self).entries() == old(self).entries().insert(key@, (value@, freq, old(self).clock())),
            final(self).clock() == old(self).clock() + 1,
            final(self).capacity() == old(self).capacity(),
            final(self).size() == old(self).size() + value@.len(),
    {
        let len = value.len();
        let stamp = self.clock;
        let was_empty = self.cur_size == 0;
        let ghost old_slots = self.slots@;
        let ghost old_free = self.free@;
        let ghost mid = self.entries();
        let ghost pre_state = *self;
        proof {
            assert(!mid.contains_key(key@));
            self.lemma_occupied_iff_bytes();
        }
        let i: usize = match self.free.pop() {
            Some(i) => {
                proof {
                    assert(old_free[old_free.len() - 1] == i);
                    assert(old_slots[i as int] is None);
                }
                i
            },
            None => self.slots.len(),
        };
        proof {
            assert(!pre_state.occupied(i as int));
            assert forall|j: int| 0 <= j < self.free@.len() implies #[trigger] self.free@[j] != i by {
                assert(old_free[j] == self.free@[j]);
            }
        }
        let mut b = match self.buckets.remove(&freq) {
            Some(b) => {
                proof {
                    assert(pre_state.buckets@.contains_key(freq));
                    assert(pre_state.bucket_ok(freq));
                }
                b
            },
            None => Dlinklist::new(),
        };
        let ghost b_old = b;
        proof {
            if pre_state.buckets@.contains_key(freq) {
                assert(b_old == pre_state.buckets@[freq]);
            } else {
                assert(b_old.view().len() == 0);
            }
        }
        let h = b.push_front(i);
        self.buckets.insert(freq, b);
        let item = CacheValue::new(key.clone(), value.clone(), wall_clock_now(), freq, stamp, h);
        let ghost new_v = item;
        if i < self.slots.len() {
            proof {
                lemma_total_update(old_slots, i as int, Some(new_v));
            }
            self.slots.set(i, Some(item));
        } else {
            proof {
                lemma_total_push(old_slots, Some(new_v));
            }
            self.slots.push(Some(item));
        }
        self.slot_of.insert(key, i);
        self.clock = self.clock + 1;
        self.cur_size = self.cur_size + len;
        if was_empty || freq < self.lfu_cnt {
            self.lfu_cnt = freq;
        }
        proof {
            assert forall|k2: Seq<char>| #[trigger] self.slot_of@.contains_key(k2) implies self.occupied(
                self.slot_of@[k2] as int,
            ) && self.slot(self.slot_of@[k2] as int).key@ == k2 by {
                if k2 != new_v.key@ {
                    assert(pre_state.slot_of@.contains_key(k2));
                    let j = self.slot_of@[k2] as int;
                    assert(old_slots[j] is Some);
                }
            }
            assert forall|j: int| 0 <= j < self.slots@.len() && #[trigger] self.slots@[j] is Some
                implies self.slot_of@.contains_key(self.slot(j).key@) && self.slot_of@[self.slot(
                j,
            ).key@] == j by {
                if j != i {
                    assert(old_slots[j] is Some);
                }
            }
            assert forall|x: u64| x != freq implies (self.buckets@.contains_key(x) <==> pre_state.buckets@.contains_key(x)) by {}
            assert forall|x: u64| x != freq && pre_state.buckets@.contains_key(x) implies self.buckets@[x] == pre_state.buckets@[x] by {}
            assert forall|x: int| 0 <= x < old_slots.len() && x != i implies self.slots@[x] == old_slots[x] by {}
            Self::lemma_insert_buckets(pre_state, *self, i as int, freq, b_old, h);
            assert forall|j: int| 0 <= j < self.slots@.len() && #[trigger] self.slots@[j] is Some
                implies 1 <= self.slot(j).freq_cnt <= self.clock && self.slot(j).stamp < self.clock
                && self.slot(j).val@.len() > 0 by {
                if j != i {
                    assert(old_slots[j] is Some);
                }
            }
            assert forall|j: int| 0 <= j < self.free@.len() implies 0 <= #[trigger] self.free@[j]
                < self.slots@.len() && self.slots@[self.free@[j] as int] is None by {
                assert(old_free[j] == self.free@[j]);
            }
            assert forall|j1: int, j2: int|
                0 <= j1 < self.free@.len() && 0 <= j2 < self.free@.len() && j1 != j2 implies #[trigger] self.free@[j1]
                != #[trigger] self.free@[j2] by {
                assert(old_free[j1] == self.free@[j1]);
                assert(old_free[j2] == self.free@[j2]);
            }
            assert(self.entries() =~= mid.insert(key@, (value@, freq, stamp)));
            let new_e = self.entries();
            self.slot_of.lemma_finite();
            assert(new_e.dom() =~= self.slot_of@.dom());
            lemma_sum_remove(new_e, new_e.dom(), key@);
            assert(new_e.dom().remove(key@) =~= mid.dom());
            lemma_sum_congruent(new_e, mid, mid.dom());
            assert(self.occupied(i as int));
            assert forall|j: int| #[trigger] self.occupied(j) implies self.lfu_cnt <= self.slot(j).freq_cnt by {
                if j != i as int {
                    assert(old_slots[j] is Some);
                    assert(pre_state.occupied(j));
                }
            }
            if !was_empty && freq >= pre_state.lfu_cnt {
                let w = choose|w: int| #[trigger] pre_state.occupied(w) && pre_state.slot(w).freq_cnt == pre_state.lfu_cnt;
                assert(old_slots[w] is Some);
                assert(w != i as int);
                assert(self.occupied(w));
            }
        }
    }
}


impl CacheStore {
    /// The keys in the bucket of use count `f`, most recently used first.
    pub closed spec fn bucket_keys(&self, f: u64) -> Seq<Seq<char>> {
        if self.buckets@.contains_key(f) {
            self.buckets@[f].view().map_values(|i: usize| self.slot(i as int).key@)
        } else {
            Seq::empty()
        }
    }

    /// Every stored key stands exactly once in the buckets: in the bucket of
    /// its own use count, and in no other. Every key in a bucket is stored
    /// with that use count, and each bucket runs from the most recently used
    /// key to the least.
    pub proof fn lemma_each_key_once_in_its_bucket(&self)
        requires
            self.wf(),
        ensures
            forall|k: Seq<char>|
                #[trigger] self.entries().contains_key(k) ==> exists|p: int|
                    0 <= p < self.bucket_keys(self.entries()[k].1).len() && #[trigger] self.bucket_keys(
                        self.entries()[k].1,
                    )[p] == k,
            forall|f: u64, p: int, q: int|
                0 <= p < self.bucket_keys(f).len() && 0 <= q < self.bucket_keys(f).len()
                    && #[trigger] self.bucket_keys(f)[p] == #[trigger] self.bucket_keys(f)[q] ==> p == q,
            forall|f: u64, p: int|
                0 <= p < self.bucket_keys(f).len() ==> self.entries().contains_key(#[trigger] self.bucket_keys(f)[p])
                    && self.entries()[self.bucket_keys(f)[p]].1 == f,
            forall|f: u64, p: int, q: int|
                0 <= p < q < self.bucket_keys(f).len() ==> self.entries()[#[trigger] self.bucket_keys(f)[p]].2
                    > self.entries()[#[trigger] self.bucket_keys(f)[q]].2,
    {
        assert forall|k: Seq<char>| #[trigger] self.entries().contains_key(k) implies exists|p: int|
            0 <= p < self.bucket_keys(self.entries()[k].1).len() && #[trigger] self.bucket_keys(self.entries()[k].1)[p]
                == k by {
            let i = self.slot_of@[k] as int;
            assert(self.slots@[i] is Some);
            assert(self.in_bucket(i));
            let f = self.slot(i).freq_cnt;
            assert(self.entries()[k].1 == f);
            let p = choose|p: int| 0 <= p < self.buckets@[f].view().len() && #[trigger] self.buckets@[f].view()[p] as int == i;
            assert(self.slot(i).key@ == k);
            assert(self.bucket_keys(f)[p] == self.slot(self.buckets@[f].view()[p] as int).key@);
            assert(self.bucket_keys(f)[p] == k);
        }
        assert forall|f: u64, p: int|
            0 <= p < self.bucket_keys(f).len() implies self.entries().contains_key(#[trigger] self.bucket_keys(f)[p])
            && self.entries()[self.bucket_keys(f)[p]].1 == f by {
            assert(self.bucket_ok(f));
            let i = self.buckets@[f].view()[p] as int;
            assert(self.occupied(i));
            assert(self.slots@[i] is Some);
        }
        assert forall|f: u64, p: int, q: int|
            0 <= p < self.bucket_keys(f).len() && 0 <= q < self.bucket_keys(f).len()
                && #[trigger] self.bucket_keys(f)[p] == #[trigger] self.bucket_keys(f)[q] implies p == q by {
            assert(self.bucket_ok(f));
            let b = self.buckets@[f];
            let i = b.view()[p] as int;
            let j = b.view()[q] as int;
            assert(self.occupied(i) && self.occupied(j));
            assert(self.slots@[i] is Some && self.slots@[j] is Some);
            assert(i == j);
            self.lemma_bucket_unique(f, p, q);
        }
        assert forall|f: u64, p: int, q: int|
            0 <= p < q < self.bucket_keys(f).len() implies self.entries()[#[trigger] self.bucket_keys(f)[p]].2
            > self.entries()[#[trigger] self.bucket_keys(f)[q]].2 by {
            assert(self.bucket_ok(f));
            let b = self.buckets@[f];
            let i = b.view()[p] as int;
            let j = b.view()[q] as int;
            assert(self.occupied(i) && self.occupied(j));
            assert(self.slots@[i] is Some && self.slots@[j] is Some);
        }
    }

    /// In a shard that holds something, `min_freq` is the least use count
    /// of a stored key, so its bucket is the least one that is not empty.
    pub proof fn lemma_min_freq_is_least(&self)
        requires
            self.wf(),
            !(self.entries().dom() =~= Set::<Seq<char>>::empty()),
        ensures
            exists|k: Seq<char>| #[trigger] self.entries().contains_key(k) && self.entries()[k].1 == self.min_freq(),
            forall|k: Seq<char>| #[trigger] self.entries().contains_key(k) ==> self.min_freq() <= self.entries()[k].1,
    {
        let k0 = choose|k: Seq<char>| !(self.entries().contains_key(k) <==> Set::<Seq<char>>::empty().contains(k));
        let i0 = self.slot_of@[k0] as int;
        assert(self.occupied(i0));
        let i = choose|i: int| #[trigger] self.occupied(i) && self.slot(i).freq_cnt == self.lfu_cnt;
        assert(self.slots@[i] is Some);
        assert(self.entries().contains_key(self.slot(i).key@));
        assert forall|k: Seq<char>| #[trigger] self.entries().contains_key(k) implies self.min_freq()
            <= self.entries()[k].1 by {
            let j = self.slot_of@[k] as int;
            assert(self.occupied(j));
        }
    }

    /// Inserting the same bytes twice under one key leaves those bytes
    /// stored, with the use count that the first insert gave, which is at
    /// least one; the second insert evicts nothing and leaves the size as
    /// it was.
    pub proof fn lemma_insert_twice(s0: CacheStore, s1: CacheStore, s2: CacheStore, key: Seq<char>, value: Seq<u8>)
        requires
            s0.wf(),
            s1.wf(),
            s2.wf(),
            CacheStore::insert_outcome(s0, s1, key, value),
            CacheStore::insert_outcome(s1, s2, key, value),
            !insert_refused(value.len(), s0.capacity(), s0.clock()),
            s1.clock() < u64::MAX,
        ensures
            s2.entries().contains_key(key),
            s2.entries()[key].0 == value,
            s2.entries()[key].1 == s1.entries()[key].1,
            s2.entries()[key].1 >= 1,
            s2.entries() == s1.entries().insert(key, (value, s1.entries()[key].1, s1.clock())),
            s2.size() == s1.size(),
    {
        let e1 = s1.entries();
        let e2 = s2.entries();
        let pre = e1.remove(key);
        s1.lemma_bytes_held();
        s2.lemma_bytes_held();
        lemma_sum_remove(e1, e1.dom(), key);
        assert(pre.dom() =~= e1.dom().remove(key));
        lemma_sum_congruent(e1, pre, pre.dom());
        // sum(e1) == |value| + sum(pre)
        let surv = e2.dom().remove(key);
        assert(surv.subset_of(pre.dom()));
        lemma_sum_remove(e2, e2.dom(), key);
        lemma_sum_subset(pre, surv, pre.dom());
        lemma_sum_congruent(e2, pre, surv);
        // sum(e2) == |value| + sum(pre over the survivors)
        assert forall|k: Seq<char>| #[trigger] pre.contains_key(k) implies e2.contains_key(k) by {
            if !e2.contains_key(k) {
                let m = choose|m: Seq<char>|
                    #[trigger] pre.contains_key(m) && !e2.contains_key(m) && s2.size() + pre[m].0.len() > s2.capacity()
                        && forall|e3: Seq<char>|
                        #[trigger] pre.contains_key(e3) && !e2.contains_key(e3) && e3 != m ==> rank_lt(
                            entry_rank(pre[e3]),
                            entry_rank(pre[m]),
                        );
                assert(!surv.contains(m));
                lemma_sum_subset(pre, surv.insert(m), pre.dom());
                lemma_sum_remove(pre, surv.insert(m), m);
                assert(surv.insert(m).remove(m) =~= surv);
                s1.lemma_size_within_capacity();
            }
        }
        assert(surv =~= pre.dom());
        assert(e2 =~= e1.insert(key, (value, e1[key].1, s1.clock())));
    }
}

} // verus!
