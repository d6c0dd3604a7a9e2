//! The sharded file cache: several LFU shards, a map from keys to the shard
//! that took them, and a cursor that spreads insertions over the shards.
//!
//! The cache is owned by one party at a time; a server that shares it
//! between threads puts it behind a lock of its own.
use vstd::prelude::*;
use crate::cache_store::{CacheStore, EntryView, FileData, insert_refused};
use crate::keyindex::KeyIndex;

verus! {

/// Sizes of the shards and the shard where the next search starts.
pub struct CacheMetaData {
    pub size_map: Vec<usize>,
    pub cur_idx: usize,
}

impl CacheMetaData {
    /// Sizes all zero for `directory_len` shards, search starting at shard 0.
    pub fn new(directory_len: usize) -> (r: CacheMetaData)
        ensures
            r.size_map@.len() == directory_len,
            forall|i: int| 0 <= i < directory_len ==> r.size_map@[i] == 0,
            r.cur_idx == 0,
    {
        let mut size_map: Vec<usize> = Vec::new();
        let mut i: usize = 0;
        while i < directory_len
            invariant
                i <= directory_len,
                size_map@.len() == i,
                forall|j: int| 0 <= j < i ==> size_map@[j] == 0,
            decreases directory_len - i,
        {
            size_map.push(0);
            i = i + 1;
        }
        CacheMetaData { size_map, cur_idx: 0 }
    }
}

/// Steps from `cur` forward to `i`, going round after the last shard.
pub open spec fn circular_distance(i: int, cur: int, n: int) -> int {
    if i >= cur {
        i - cur
    } else {
        i + n - cur
    }
}

/// Whether `size` more bytes fit in shard `i`.
pub open spec fn shard_fits(sizes: Seq<usize>, i: int, size: nat, cap: nat) -> bool {
    sizes[i] + size <= cap
}

/// The shard that takes an insertion of `size` bytes: the first that it
/// fits in, searching circularly from `cur`; the shard at `cur` when it
/// fits in none.
pub open spec fn is_insertion_shard(sizes: Seq<usize>, cur: int, size: nat, cap: nat, r: int) -> bool {
    let n = sizes.len() as int;
    &&& 0 <= r < n
    &&& (exists|i: int| 0 <= i < n && shard_fits(sizes, i, size, cap)) ==> {
        &&& shard_fits(sizes, r, size, cap)
        &&& forall|j: int|
            0 <= j < n && circular_distance(j, cur, n) < circular_distance(r, cur, n)
                ==> !shard_fits(sizes, j, size, cap)
    }
    &&& (forall|i: int| 0 <= i < n ==> !shard_fits(sizes, i, size, cap)) ==> r == cur
}

/// The shard after `i`, going round after the last.
pub open spec fn next_shard(i: int, n: int) -> int {
    if i + 1 == n {
        0
    } else {
        i + 1
    }
}

/// Sum of a sequence of sizes.
pub open spec fn sum_sizes(s: Seq<usize>) -> nat
    decreases s.len(),
{
    if s.len() == 0 {
        0
    } else {
        sum_sizes(s.drop_last()) + s.last() as nat
    }
}

proof fn lemma_sum_bound(s: Seq<usize>, cap: nat)
    requires
        forall|i: int| 0 <= i < s.len() ==> s[i] <= cap,
    ensures
        sum_sizes(s) <= s.len() * cap,
    decreases s.len(),
{
    if s.len() > 0 {
        lemma_sum_bound(s.drop_last(), cap);
        assert(sum_sizes(s) <= (s.len() - 1) * cap + cap);
        assert((s.len() - 1) * cap + cap == s.len() * cap) by (nonlinear_arith);
    }
}

proof fn lemma_sum_zero(s: Seq<usize>)
    requires
        forall|i: int| 0 <= i < s.len() ==> s[i] == 0,
    ensures
        sum_sizes(s) == 0,
    decreases s.len(),
{
    if s.len() > 0 {
        lemma_sum_zero(s.drop_last());
    }
}

/// Why a non-blocking cache call did nothing.
#[derive(Clone, Copy, Debug, PartialEq, Eq, Structural)]
pub enum CacheError {
    /// An empty value is never stored.
    EmptyValue,
}

/// The sharded cache.
pub struct Cache {
    cache_directory: Vec<CacheStore>,
    key_cache_map: KeyIndex,
    cache_metadat: CacheMetaData,
    each_cache_size: usize,
}

impl Cache {
    /// The shards.
    pub closed spec fn shards(&self) -> Seq<CacheStore> {
        self.cache_directory@
    }

    /// The shard recorded for each key.
    pub closed spec fn shard_map(&self) -> Map<Seq<char>, usize> {
        self.key_cache_map@
    }

    /// Bytes each shard may hold.
    pub closed spec fn shard_capacity(&self) -> nat {
        self.each_cache_size as nat * 1048576
    }

    /// Sizes recorded for the shards.
    pub closed spec fn sizes(&self) -> Seq<usize> {
        self.cache_metadat.size_map@
    }

    /// Shard where the next search starts.
    pub closed spec fn cursor(&self) -> int {
        self.cache_metadat.cur_idx as int
    }

    /// The bytes that a lookup of `k` finds: those of the shard recorded
    /// for `k`, if that shard still holds `k`.
    pub open spec fn stored(&self, k: Seq<char>) -> Option<Seq<u8>> {
        if self.shard_map().contains_key(k) && self.shards()[self.shard_map()[k] as int].entries().contains_key(k) {
            Some(self.shards()[self.shard_map()[k] as int].entries()[k].0)
        } else {
            None
        }
    }

    /// Internal consistency of the cache.
    pub closed spec fn wf(&self) -> bool {
        let n = self.cache_directory@.len();
        &&& n > 0
        &&& self.cache_metadat.size_map@.len() == n
        &&& self.cache_metadat.cur_idx < n
        &&& n * (self.each_cache_size * 1048576) <= usize::MAX
        &&& self.key_cache_map.wf()
        &&& forall|k: Seq<char>| #[trigger] self.key_cache_map@.contains_key(k) ==> self.key_cache_map@[k] < n
        &&& forall|i: int|
            #![trigger self.cache_directory@[i]]
            0 <= i < n ==> {
                &&& self.cache_directory@[i].wf()
                &&& self.cache_directory@[i].capacity() == self.each_cache_size * 1048576
                &&& self.cache_metadat.size_map@[i] == self.cache_directory@[i].size()
            }
    }

    /// A cache of `directory_len` empty shards of `each_cache_size` mebibytes.
    pub fn new(directory_len: usize, each_cache_size: usize) -> (r: Cache)
        requires
            directory_len > 0,
            directory_len * (each_cache_size * 1048576) <= usize::MAX,
        ensures
            r.wf(),
            r.shards().len() == directory_len,
            r.shard_capacity() == each_cache_size * 1048576,
            r.shard_map() == Map::<Seq<char>, usize>::empty(),
            r.sizes().len() == directory_len,
            forall|i: int| 0 <= i < directory_len ==> #[trigger] r.sizes()[i] == 0,
            sum_sizes(r.sizes()) == 0,
            forall|i: int| 0 <= i < directory_len ==> #[trigger] r.shards()[i].entries() == Map::<
                Seq<char>,
                EntryView,
            >::empty(),
            r.cursor() == 0,
    {
        proof {
            assert(each_cache_size * 1048576 <= usize::MAX) by (nonlinear_arith)
                requires
                    directory_len > 0,
                    directory_len * (each_cache_size * 1048576) <= usize::MAX,
            ;
        }
        let mut cache_dir: Vec<CacheStore> = Vec::new();
        let mut i: usize = 0;
        while i < directory_len
            invariant
                i <= directory_len,
                each_cache_size * 1048576 <= usize::MAX,
                cache_dir@.len() == i,
                forall|j: int|
                    #![trigger cache_dir@[j]]
                    0 <= j < i ==> cache_dir@[j].wf() && cache_dir@[j].capacity() == each_cache_size
                        * 1048576 && cache_dir@[j].size() == 0 && cache_dir@[j].entries() == Map::<
                        Seq<char>,
                        EntryView,
                    >::empty(),
            decreases directory_len - i,
        {
            cache_dir.push(CacheStore::new(each_cache_size));
            i = i + 1;
        }
        let r = Cache {
            cache_directory: cache_dir,
            key_cache_map: KeyIndex::new(),
            cache_metadat: CacheMetaData::new(directory_len),
            each_cache_size,
        };
        proof {
            lemma_sum_zero(r.cache_metadat.size_map@);
        }
        r
    }

    /// Picks the shard that takes `size` bytes and moves the cursor past it.
    fn find_insertion_idx(&mut self, size: usize) -> (r: usize)
        requires
            old(self).wf(),
        ensures
            final(self).wf(),
            is_insertion_shard(old(self).sizes(), old(self).cursor(), size as nat, old(self).shard_capacity(), r as int),
            final(self).cursor() == next_shard(r as int, old(self).shards().len() as int),
            final(self).shards() == old(self).shards(),
            final(self).shard_map() == old(self).shard_map(),
            final(self).sizes() == old(self).sizes(),
    {
        let n = self.cache_metadat.size_map.len();
        let cur = self.cache_metadat.cur_idx;
        proof {
            let e = self.each_cache_size as int * 1048576;
            assert(e <= usize::MAX) by (nonlinear_arith)
                requires
                    n > 0,
                    n * e <= usize::MAX,
            ;
        }
        let cap = self.each_cache_size * 1048576;
        let ghost sizes = self.cache_metadat.size_map@;
        let mut k: usize = 0;
        while k < n
            invariant
                n == sizes.len(),
                sizes == self.cache_metadat.size_map@,
                cur < n,
                cap == self.shard_capacity(),
                self == old(self),
                old(self).wf(),
                cur == old(self).cache_metadat.cur_idx,
                k <= n,
                forall|j: int|
                    0 <= j < n && circular_distance(j, cur as int, n as int) < k ==> !shard_fits(
                        sizes,
                        j,
                        size as nat,
                        cap as nat,
                    ),
            decreases n - k,
        {
            let idx = if k < n - cur {
                cur + k
            } else {
                k - (n - cur)
            };
            proof {
                assert(circular_distance(idx as int, cur as int, n as int) == k);
            }
            if self.cache_metadat.size_map[idx] <= cap && size <= cap - self.cache_metadat.size_map[idx] {
                proof {
                    assert(shard_fits(sizes, idx as int, size as nat, cap as nat));
                }
                self.cache_metadat.cur_idx = if idx + 1 == n {
                    0
                } else {
                    idx + 1
                };
                return idx;
            }
            proof {
                assert forall|j: int|
                    0 <= j < n && circular_distance(j, cur as int, n as int) < k + 1 implies !shard_fits(
                    sizes,
                    j,
                    size as nat,
                    cap as nat,
                ) by {
                    if circular_distance(j, cur as int, n as int) == k {
                        assert(j == idx);
                    }
                }
            }
            k = k + 1;
        }
        proof {
            assert forall|i: int| 0 <= i < n implies !shard_fits(sizes, i, size as nat, cap as nat) by {
                assert(circular_distance(i, cur as int, n as int) < n);
            }
        }
        self.cache_metadat.cur_idx = if cur + 1 == n {
            0
        } else {
            cur + 1
        };
        cur
    }
}

impl Cache {
    /// Stores `value` under `key` in the shard picked for its size, and
    /// records that shard for `key`. An empty value is not stored.
    pub fn insert(&mut self, key: String, value: &Vec<u8>)
        requires
            old(self).wf(),
        ensures
            final(self).wf(),
            final(self).shards().len() == old(self).shards().len(),
            final(self).shard_capacity() == old(self).shard_capacity(),
            value@.len() == 0 ==> final(self).shards() == old(self).shards() && final(self).shard_map()
                == old(self).shard_map() && final(self).cursor() == old(self).cursor(),
            value@.len() > 0 ==> exists|i: int|
                #[trigger] is_insertion_shard(
                    old(self).sizes(),
                    old(self).cursor(),
                    value@.len(),
                    old(self).shard_capacity(),
                    i,
                ) && final(self).shard_map() == old(self).shard_map().insert(key@, i as usize)
                    && final(self).cursor() == next_shard(i, old(self).shards().len() as int)
                    && final(self).shards() == old(self).shards().update(i, final(self).shards()[i])
                    && CacheStore::insert_outcome(old(self).shards()[i], final(self).shards()[i], key@, value@)
                    && (!insert_refused(value@.len(), old(self).shard_capacity(), old(self).shards()[i].clock())
                        ==> final(self).stored(key@) == Some(value@)),
    {
        if value.len() == 0 {
            return;
        }
        let idx = self.find_insertion_idx(value.len());
        self.key_cache_map.insert(key.clone(), idx);
        let ghost mid = self.cache_directory@;
        let cur_size = self.cache_directory[idx].insert(key, value);
        self.cache_metadat.size_map.set(idx, cur_size);
        proof {
            assert(self.cache_directory@ == mid.update(idx as int, self.cache_directory@[idx as int]));
            assert forall|i: int| 0 <= i < self.cache_directory@.len() implies {
                &&& #[trigger] self.cache_directory@[i].wf()
                &&& self.cache_directory@[i].capacity() == self.each_cache_size * 1048576
                &&& self.cache_metadat.size_map@[i] == self.cache_directory@[i].size()
            } by {
                if i != idx {
                    assert(mid[i] == self.cache_directory@[i]);
                }
            }
            assert(forall|k: Seq<char>| #[trigger] self.key_cache_map@.contains_key(k) ==> self.key_cache_map@[k]
                < self.cache_directory@.len());
            assert(is_insertion_shard(
                old(self).sizes(),
                old(self).cursor(),
                value@.len(),
                old(self).shard_capacity(),
                idx as int,
            ));
        }
    }

    /// The bytes found for `key`. When the shard recorded for `key` no
    /// longer holds it, the record is dropped.
    pub fn get(&mut self, key: String) -> (r: Option<FileData>)
        requires
            old(self).wf(),
        ensures
            final(self).wf(),
            final(self).shards().len() == old(self).shards().len(),
            final(self).shard_capacity() == old(self).shard_capacity(),
            final(self).cursor() == old(self).cursor(),
            r is Some <==> old(self).stored(key@) is Some,
            r matches Some(d) ==> old(self).stored(key@) == Some(d.val@),
            r is Some ==> final(self).shard_map() == old(self).shard_map(),
            r is None ==> final(self).shard_map() == old(self).shard_map().remove(key@),
            forall|k: Seq<char>| #[trigger] final(self).stored(k) == old(self).stored(k),
    {
        match self.key_cache_map.get(&key) {
            Some(idx) => {
                let ghost mid = self.cache_directory@;
                let res = self.cache_directory[idx].get(key.clone());
                proof {
                    assert(self.cache_directory@ == mid.update(idx as int, self.cache_directory@[idx as int]));
                    assert forall|i: int| 0 <= i < self.cache_directory@.len() implies {
                        &&& #[trigger] self.cache_directory@[i].wf()
                        &&& self.cache_directory@[i].capacity() == self.each_cache_size * 1048576
                        &&& self.cache_metadat.size_map@[i] == self.cache_directory@[i].size()
                    } by {
                        if i != idx {
                            assert(mid[i] == self.cache_directory@[i]);
                        }
                    }
                }
                if res.is_none() {
                    self.key_cache_map.remove(&key);
                }
                proof {
                    assert forall|k: Seq<char>| #[trigger] self.stored(k) == old(self).stored(k) by {
                        if self.key_cache_map@.contains_key(k) {
                            let j = self.key_cache_map@[k] as int;
                            if j != idx {
                                assert(mid[j] == self.cache_directory@[j]);
                            }
                        }
                    }
                }
                res
            },
            None => {
                proof {
                    assert(self.key_cache_map@ =~= old(self).key_cache_map@.remove(key@));
                }
                None
            },
        }
    }

    /// Like `insert`, but refuses an empty value with an error.
    pub fn try_insert(&mut self, key: String, value: &Vec<u8>) -> (r: Result<(), CacheError>)
        requires
            old(self).wf(),
        ensures
            final(self).wf(),
            r is Err <==> value@.len() == 0,
            value@.len() == 0 ==> final(self).shards() == old(self).shards() && final(self).shard_map()
                == old(self).shard_map() && final(self).cursor() == old(self).cursor(),
            value@.len() > 0 ==> exists|i: int|
                #[trigger] is_insertion_shard(
                    old(self).sizes(),
                    old(self).cursor(),
                    value@.len(),
                    old(self).shard_capacity(),
                    i,
                ) && final(self).shard_map() == old(self).shard_map().insert(key@, i as usize)
                    && final(self).cursor() == next_shard(i, old(self).shards().len() as int)
                    && final(self).shards() == old(self).shards().update(i, final(self).shards()[i])
                    && CacheStore::insert_outcome(old(self).shards()[i], final(self).shards()[i], key@, value@),
    {
        if value.len() == 0 {
            return Err(CacheError::EmptyValue);
        }
        self.insert(key, value);
        Ok(())
    }

    /// Like `get`; a cache with a single owner never has to wait, so the
    /// lookup always takes place.
    pub fn try_get(&mut self, key: String) -> (r: Result<Option<FileData>, CacheError>)
        requires
            old(self).wf(),
        ensures
            final(self).wf(),
            final(self).shards().len() == old(self).shards().len(),
            final(self).shard_capacity() == old(self).shard_capacity(),
            final(self).cursor() == old(self).cursor(),
            r matches Ok(o) && (o is Some <==> old(self).stored(key@) is Some),
            r matches Ok(Some(d)) ==> old(self).stored(key@) == Some(d.val@),
            r matches Ok(Some(_)) ==> final(self).shard_map() == old(self).shard_map(),
            r matches Ok(None) ==> final(self).shard_map() == old(self).shard_map().remove(key@),
            forall|k: Seq<char>| #[trigger] final(self).stored(k) == old(self).stored(k),
    {
        Ok(self.get(key))
    }

    /// Total bytes held by all shards.
    pub fn size(&self) -> (r: usize)
        requires
            self.wf(),
        ensures
            r == sum_sizes(self.sizes()),
    {
        let sizes = &self.cache_metadat.size_map;
        let ghost cap: nat = self.shard_capacity();
        let mut sz: usize = 0;
        let mut i: usize = 0;
        while i < sizes.len()
            invariant
                self.wf(),
                sizes@ == self.sizes(),
                cap == self.shard_capacity(),
                i <= sizes@.len(),
                sz == sum_sizes(sizes@.subrange(0, i as int)),
            decreases sizes@.len() - i,
        {
            proof {
                let pre = sizes@.subrange(0, i + 1);
                assert(pre.drop_last() =~= sizes@.subrange(0, i as int));
                assert forall|j: int| 0 <= j < pre.len() implies pre[j] <= cap by {
                    let c = self.cache_directory@[j];
                    assert(c.wf());
                    assert(self.cache_directory@[j].size() <= self.cache_directory@[j].capacity()) by {
                        self.cache_directory@[j].lemma_size_within_capacity();
                    }
                }
                lemma_sum_bound(pre, cap);
                assert(pre.len() * cap <= sizes@.len() * cap) by (nonlinear_arith)
                    requires
                        pre.len() <= sizes@.len(),
                ;
            }
            sz = sz + sizes[i];
            i = i + 1;
        }
        proof {
            assert(sizes@.subrange(0, i as int) =~= sizes@);
        }
        sz
    }

    /// The shard recorded for `key`, if any.
    pub fn shard_of(&self, key: &String) -> (r: Option<usize>)
        requires
            self.wf(),
        ensures
            r == (if self.shard_map().contains_key(key@) {
                Some(self.shard_map()[key@])
            } else {
                None::<usize>
            }),
    {
        self.key_cache_map.get(key)
    }
}

} // verus!
