//! A map from string keys to slot numbers, built on a hash table of chains.
//!
//! std's `HashMap` is specified for integer keys only, so with `String`
//! keys nothing about lookups could be proved. This index therefore hashes
//! each key to a `u64` with a hash of its own, keeps a `HashMap` from that
//! hash to a chain of `(key, slot)` pairs, and compares keys in the chain.
use std::collections::HashMap;
use vstd::prelude::*;

verus! {

broadcast use vstd::std_specs::hash::group_hash_axioms;

/// Offset basis of the chain hash.
pub const HASH_SEED: u64 = 14695981039346656037;

/// Multiplier of the chain hash.
pub const HASH_PRIME: u64 = 1099511628211;

/// Hash of a byte sequence: each byte is added to the running value, which
/// is then multiplied by a prime, both modulo 2^64.
pub open spec fn byte_hash(b: Seq<u8>) -> u64
    decreases b.len(),
{
    if b.len() == 0 {
        HASH_SEED
    } else {
        byte_hash(b.drop_last()).wrapping_add(b.last() as u64).wrapping_mul(HASH_PRIME)
    }
}

/// Hash of a key: the hash of its UTF-8 encoding.
pub open spec fn key_hash(k: Seq<char>) -> u64 {
    byte_hash(vstd::utf8::encode_utf8(k))
}

/// Computes the hash of a key.
pub fn hash_key(key: &String) -> (r: u64)
    ensures
        r == key_hash(key@),
{
    let bytes = key.as_str().as_bytes();
    let mut h: u64 = HASH_SEED;
    let mut i: usize = 0;
    while i < bytes.len()
        invariant
            0 <= i <= bytes@.len(),
            bytes@ == vstd::utf8::encode_utf8(key@),
            h == byte_hash(bytes@.subrange(0, i as int)),
        decreases bytes@.len() - i,
    {
        proof {
            let next = bytes@.subrange(0, i + 1);
            assert(next.drop_last() =~= bytes@.subrange(0, i as int));
        }
        h = h.wrapping_add(bytes[i] as u64).wrapping_mul(HASH_PRIME);
        i = i + 1;
    }
    proof {
        assert(bytes@.subrange(0, i as int) =~= bytes@);
    }
    h
}

/// A map from keys to slot numbers.
pub struct KeyIndex {
    chains: HashMap<u64, Vec<(String, usize)>>,
    contents: Ghost<Map<Seq<char>, usize>>,
}

impl View for KeyIndex {
    type V = Map<Seq<char>, usize>;

    closed spec fn view(&self) -> Map<Seq<char>, usize> {
        self.contents@
    }
}

impl KeyIndex {
    /// The chains hold exactly the pairs of the map, each key once, in the
    /// chain of its hash.
    pub closed spec fn wf(&self) -> bool {
        &&& self.contents@.dom().finite()
        &&& forall|h: u64, i: int|
            #![trigger self.chains@[h]@[i]]
            self.chains@.contains_key(h) && 0 <= i < self.chains@[h]@.len() ==> {
                let e = self.chains@[h]@[i];
                &&& key_hash(e.0@) == h
                &&& self.contents@.contains_key(e.0@)
                &&& self.contents@[e.0@] == e.1
            }
        &&& forall|h: u64, i: int, j: int|
            #![trigger self.chains@[h]@[i], self.chains@[h]@[j]]
            self.chains@.contains_key(h) && 0 <= i < self.chains@[h]@.len() && 0 <= j
                < self.chains@[h]@.len() && self.chains@[h]@[i].0@ == self.chains@[h]@[j].0@
                ==> i == j
        &&& forall|k: Seq<char>|
            #![trigger self.contents@.contains_key(k)]
            self.contents@.contains_key(k) ==> self.chains@.contains_key(key_hash(k)) && exists|
                i: int,
            |
                0 <= i < self.chains@[key_hash(k)]@.len() && #[trigger] self.chains@[key_hash(
                    k,
                )]@[i].0@ == k
    }

    /// An index holds finitely many keys.
    pub proof fn lemma_finite(&self)
        requires
            self.wf(),
        ensures
            self@.dom().finite(),
    {
    }

    /// An empty index.
    pub fn new() -> (r: KeyIndex)
        ensures
            r.wf(),
            r@ == Map::<Seq<char>, usize>::empty(),
    {
        KeyIndex { chains: HashMap::new(), contents: Ghost(Map::empty()) }
    }

    /// Position of `key` in `chain`, if it is there.
    fn find_in_chain(chain: &Vec<(String, usize)>, key: &String) -> (r: Option<usize>)
        ensures
            r matches Some(i) ==> i < chain@.len() && chain@[i as int].0@ == key@,
            r is None ==> forall|i: int| 0 <= i < chain@.len() ==> chain@[i].0@ != key@,
    {
        let mut i: usize = 0;
        while i < chain.len()
            invariant
                0 <= i <= chain@.len(),
                forall|j: int| 0 <= j < i ==> chain@[j].0@ != key@,
            decreases chain@.len() - i,
        {
            if chain[i].0 == *key {
                return Some(i);
            }
            i = i + 1;
        }
        None
    }

    /// The slot number stored for `key`.
    pub fn get(&self, key: &String) -> (r: Option<usize>)
        requires
            self.wf(),
        ensures
            r == (if self@.contains_key(key@) {
                Some(self@[key@])
            } else {
                None::<usize>
            }),
    {
        let h = hash_key(key);
        match self.chains.get(&h) {
            None => {
                proof {
                    if self@.contains_key(key@) {
                        assert(self.chains@.contains_key(key_hash(key@)));
                    }
                }
                None
            },
            Some(chain) => {
                match Self::find_in_chain(chain, key) {
                    Some(i) => {
                        proof {
                            let e = self.chains@[h]@[i as int];
                            assert(key_hash(e.0@) == h);
                        }
                        Some(chain[i].1)
                    },
                    None => {
                        proof {
                            if self@.contains_key(key@) {
                                let i = choose|i: int|
                                    0 <= i < self.chains@[key_hash(key@)]@.len()
                                        && #[trigger] self.chains@[key_hash(key@)]@[i].0@ == key@;
                                assert(chain@[i].0@ == key@);
                            }
                        }
                        None
                    },
                }
            },
        }
    }

    /// Stores `value` for `key`, replacing what was stored for it.
    pub fn insert(&mut self, key: String, value: usize)
        requires
            old(self).wf(),
        ensures
            final(self).wf(),
            final(self)@ == old(self)@.insert(key@, value),
    {
        let h = hash_key(&key);
        let ghost k = key@;
        let ghost old_chains = self.chains@;
        let mut chain = match self.chains.remove(&h) {
            Some(c) => c,
            None => Vec::new(),
        };
        let ghost old_chain = chain@;
        proof {
            assert(old_chains.contains_key(h) ==> old_chain == old_chains[h]@);
            assert(!old_chains.contains_key(h) ==> old_chain.len() == 0);
        }
        let found = Self::find_in_chain(&chain, &key);
        match found {
            Some(i) => {
                chain.set(i, (key, value));
            },
            None => {
                chain.push((key, value));
            },
        }
        self.chains.insert(h, chain);
        proof {
            self.contents@ = self.contents@.insert(k, value);
            let new_chain = self.chains@[h]@;
            assert forall|h2: u64, i: int|
                #![trigger self.chains@[h2]@[i]]
                self.chains@.contains_key(h2) && 0 <= i < self.chains@[h2]@.len() implies {
                let e = self.chains@[h2]@[i];
                &&& key_hash(e.0@) == h2
                &&& self.contents@.contains_key(e.0@)
                &&& self.contents@[e.0@] == e.1
            } by {
                if h2 != h {
                    assert(old_chains[h2]@[i] == self.chains@[h2]@[i]);
                    let e = old_chains[h2]@[i];
                    assert(key_hash(e.0@) == h2);
                } else {
                    if new_chain[i].0@ != k {
                        assert(new_chain[i] == old_chain[i]);
                        assert(old_chains[h]@[i] == old_chain[i]);
                    }
                }
            }
            assert forall|h2: u64, i: int, j: int|
                #![trigger self.chains@[h2]@[i], self.chains@[h2]@[j]]
                self.chains@.contains_key(h2) && 0 <= i < self.chains@[h2]@.len() && 0 <= j
                    < self.chains@[h2]@.len() && self.chains@[h2]@[i].0@ == self.chains@[h2]@[j].0@
                    implies i == j by {
                if h2 != h {
                    assert(old_chains[h2]@[i] == self.chains@[h2]@[i]);
                    assert(old_chains[h2]@[j] == self.chains@[h2]@[j]);
                } else {
                    if new_chain[i].0@ != k && new_chain[j].0@ != k {
                        assert(old_chains[h]@[i] == old_chain[i]);
                        assert(old_chains[h]@[j] == old_chain[j]);
                    }
                }
            }
            assert forall|k2: Seq<char>|
                #![trigger self.contents@.contains_key(k2)]
                self.contents@.contains_key(k2) implies self.chains@.contains_key(key_hash(k2))
                && exists|i: int|
                0 <= i < self.chains@[key_hash(k2)]@.len() && #[trigger] self.chains@[key_hash(
                    k2,
                )]@[i].0@ == k2 by {
                if k2 == k {
                    match found {
                        Some(i) => assert(new_chain[i as int].0@ == k),
                        None => assert(new_chain[new_chain.len() - 1].0@ == k),
                    }
                } else {
                    assert(old(self).contents@.contains_key(k2));
                    let i = choose|i: int|
                        0 <= i < old_chains[key_hash(k2)]@.len()
                            && #[trigger] old_chains[key_hash(k2)]@[i].0@ == k2;
                    if key_hash(k2) == h {
                        assert(new_chain[i].0@ == k2);
                    } else {
                        assert(self.chains@[key_hash(k2)]@[i].0@ == k2);
                    }
                }
            }
        }
    }

    /// Removes `key` and what was stored for it.
    pub fn remove(&mut self, key: &String)
        requires
            old(self).wf(),
        ensures
            final(self).wf(),
            final(self)@ == old(self)@.remove(key@),
    {
        let h = hash_key(key);
        let ghost k = key@;
        let ghost old_chains = self.chains@;
        let mut chain = match self.chains.remove(&h) {
            Some(c) => c,
            None => Vec::new(),
        };
        let ghost old_chain = chain@;
        proof {
            assert(old_chains.contains_key(h) ==> old_chain == old_chains[h]@);
            assert(!old_chains.contains_key(h) ==> old_chain.len() == 0);
        }
        let found = Self::find_in_chain(&chain, key);
        if let Some(i) = found {
            chain.remove(i);
        }
        let ghost new_chain = chain@;
        if chain.len() > 0 {
            self.chains.insert(h, chain);
        }
        proof {
            self.contents@ = self.contents@.remove(k);
            assert forall|i: int| 0 <= i < new_chain.len() implies #[trigger] new_chain[i].0@ != k
                && exists|j: int| 0 <= j < old_chain.len() && new_chain[i] == old_chain[j] by {
                match found {
                    Some(f) => {
                        if i < f {
                            assert(new_chain[i] == old_chain[i]);
                        } else {
                            assert(new_chain[i] == old_chain[i + 1]);
                        }
                    },
                    None => {
                        assert(new_chain[i] == old_chain[i]);
                    },
                }
                assert(old_chains[h]@[i] == old_chain[i]);
            }
            assert forall|h2: u64, i: int|
                #![trigger self.chains@[h2]@[i]]
                self.chains@.contains_key(h2) && 0 <= i < self.chains@[h2]@.len() implies {
                let e = self.chains@[h2]@[i];
                &&& key_hash(e.0@) == h2
                &&& self.contents@.contains_key(e.0@)
                &&& self.contents@[e.0@] == e.1
            } by {
                if h2 != h {
                    assert(old_chains[h2]@[i] == self.chains@[h2]@[i]);
                    let e = old_chains[h2]@[i];
                    assert(key_hash(e.0@) == h2);
                } else {
                    let j = choose|j: int| 0 <= j < old_chain.len() && new_chain[i] == old_chain[j];
                    assert(old_chains[h]@[j] == old_chain[j]);
                }
            }
            assert forall|h2: u64, i: int, j: int|
                #![trigger self.chains@[h2]@[i], self.chains@[h2]@[j]]
                self.chains@.contains_key(h2) && 0 <= i < self.chains@[h2]@.len() && 0 <= j
                    < self.chains@[h2]@.len() && self.chains@[h2]@[i].0@ == self.chains@[h2]@[j].0@
                    implies i == j by {
                if h2 != h {
                    assert(old_chains[h2]@[i] == self.chains@[h2]@[i]);
                    assert(old_chains[h2]@[j] == self.chains@[h2]@[j]);
                } else {
                    match found {
                        Some(f) => {
                            let i2 = if i < f { i } else { i + 1 };
                            let j2 = if j < f { j } else { j + 1 };
                            assert(new_chain[i] == old_chain[i2]);
                            assert(new_chain[j] == old_chain[j2]);
                            assert(old_chains[h]@[i2] == old_chain[i2]);
                            assert(old_chains[h]@[j2] == old_chain[j2]);
                        },
                        None => {
                            assert(old_chains[h]@[i] == old_chain[i]);
                            assert(old_chains[h]@[j] == old_chain[j]);
                        },
                    }
                }
            }
            assert forall|k2: Seq<char>|
                #![trigger self.contents@.contains_key(k2)]
                self.contents@.contains_key(k2) implies self.chains@.contains_key(key_hash(k2))
                && exists|i: int|
                0 <= i < self.chains@[key_hash(k2)]@.len() && #[trigger] self.chains@[key_hash(
                    k2,
                )]@[i].0@ == k2 by {
                assert(old(self).contents@.contains_key(k2));
                let i = choose|i: int|
                    0 <= i < old_chains[key_hash(k2)]@.len()
                        && #[trigger] old_chains[key_hash(k2)]@[i].0@ == k2;
                if key_hash(k2) == h {
                    match found {
                        Some(f) => {
                            assert(old_chains[h]@[f as int] == old_chain[f as int]);
                            assert(i != f);
                            let i2 = if i < f { i } else { i - 1 };
                            assert(new_chain[i2] == old_chain[i]);
                            assert(new_chain.len() > 0);
                            assert(self.chains@[h]@[i2].0@ == k2);
                        },
                        None => {
                            assert(new_chain[i] == old_chain[i]);
                            assert(self.chains@[h]@[i].0@ == k2);
                        },
                    }
                } else {
                    assert(self.chains@[key_hash(k2)]@[i].0@ == k2);
                }
            }
        }
    }
}

} // verus!
