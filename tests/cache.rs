use rastapi::cache::{Cache, CacheError};
use rastapi::cache_store::CacheStore;
use rastapi::dlink_list::Dlinklist;

fn sample() -> Vec<u8> {
    "abcdefghijklmnopqrstwxyzABCDEFGHIJKLMNOPQRSTUWXYZ0123456789()!@#$%^&&*()"
        .as_bytes()
        .to_vec()
}

#[test]
fn cache_size_test() {
    let mut lfu_cache = Cache::new(5, 1);
    let data = sample(); //size : 72B;
    for i in 0..10000 {
        lfu_cache.insert(format!("files/img/i{i}.png"), &data);
    }
    let mut cur_total_size = data.len() * 10000;
    assert!(cur_total_size == lfu_cache.size(), "CACHE SIZE < CAPACITY");
    for i in 0..70000 {
        let j = i + 10000;
        lfu_cache.insert(format!("files/img/i{j}"), &data);
    }
    cur_total_size += data.len() * 70000;
    assert!(cur_total_size > lfu_cache.size(), "CACHE SIZE CAPACITY HIT");
    assert!(lfu_cache.size() == 5242680_usize, "MAXIMUM CACHE SIZE POSSIBLE");
}

#[test]
fn cache_integrity_test() {
    let mut lfu_cache = Cache::new(5, 1);
    for i in 0..10 {
        let data = sample();
        lfu_cache.insert(format!("files/pdfs/p{i}"), &data);
    }
    for i in 0..10 {
        let data = sample();
        let res = lfu_cache.get(format!("files/pdfs/p{i}"));
        assert!(res.is_some());
        assert!(res.unwrap().val.eq(&data));
    }
}

#[test]
fn eviction_test() {
    let mut lfu_cache = Cache::new(5, 1);
    let data = sample(); //size : 72B;
    for i in 0..72816 {
        lfu_cache.insert(format!("files/mp4/v{i}.mp4"), &data);
    }
    let res = lfu_cache.get(format!("files/mp4/v0.mp4"));
    assert!(res.is_none(), "FIRST INSERTED NOT EVICTED");
    assert!(
        lfu_cache.shard_of(&format!("files/mp4/v0.mp4")).is_none(),
        "KEY CACHE MAP LAZY EVICTION FAILED."
    );
    let _ = lfu_cache.get(format!("files/mp4/v1.mp4")); //Icrease v1 frequency.

    lfu_cache.insert(String::from("files/mp4/v72816.mp4"), &data); //v6 should be evicted.

    let res_v1 = lfu_cache.get(format!("files/mp4/v1.mp4"));
    assert!(res_v1.is_some(), "WRONG KEY EVICTED.");
    assert!(res_v1.unwrap().val.eq(&data), "V1 VALUE DIFFERENT");

    let res_v6 = lfu_cache.get(String::from("files/mp4/v6.mp4"));
    assert!(res_v6.is_none(), "V6 NOT EVICTED");
}

#[test]
fn shard_lfu_then_lru_eviction() {
    // One shard of 1 MiB holds 14563 entries of 72 bytes.
    let mut shard = CacheStore::new(1);
    let data = sample();
    let k = 1048576 / 72;
    for i in 0..(k + 1) {
        shard.insert(format!("v{i}"), &data);
    }
    assert!(shard.get("v0".to_string()).is_none());
    assert!(shard.get("v1".to_string()).is_some());
    shard.insert("extra".to_string(), &data);
    assert!(shard.get("v1".to_string()).is_some());
    assert!(shard.get("v2".to_string()).is_none());
    assert!(shard.get("v3".to_string()).is_some());
}

#[test]
fn shard_size_tracks_bytes_and_capacity() {
    let mut shard = CacheStore::new(1);
    assert_eq!(shard.insert("a".to_string(), &vec![1u8; 100]), 100);
    assert_eq!(shard.insert("b".to_string(), &vec![2u8; 50]), 150);
    // Replacing a value changes the size by the difference.
    assert_eq!(shard.insert("a".to_string(), &vec![3u8; 10]), 60);
    // The largest value that fits takes the whole shard.
    assert_eq!(shard.insert("big".to_string(), &vec![4u8; 1048576]), 1048576);
    assert!(shard.get("a".to_string()).is_none());
    assert!(shard.get("b".to_string()).is_none());
    assert_eq!(shard.get("big".to_string()).unwrap().val.len(), 1048576);
}

#[test]
fn shard_refuses_empty_and_oversize_values() {
    let mut shard = CacheStore::new(1);
    assert_eq!(shard.insert("a".to_string(), &vec![1u8; 8]), 8);
    assert_eq!(shard.insert("empty".to_string(), &Vec::new()), 8);
    assert!(shard.get("empty".to_string()).is_none());
    assert_eq!(shard.insert("huge".to_string(), &vec![0u8; 1048577]), 8);
    assert!(shard.get("huge".to_string()).is_none());
    assert_eq!(shard.get("a".to_string()).unwrap().val, vec![1u8; 8]);
}

#[test]
fn shard_get_returns_last_inserted_bytes() {
    let mut shard = CacheStore::new(1);
    shard.insert("k".to_string(), &vec![1, 2, 3]);
    shard.insert("k".to_string(), &vec![4, 5]);
    assert_eq!(shard.get("k".to_string()).unwrap().val, vec![4, 5]);
    assert_eq!(shard.get("k".to_string()).unwrap().val, vec![4, 5]);
    assert!(shard.get("missing".to_string()).is_none());
}

#[test]
fn shard_insert_twice_is_idempotent() {
    let mut shard = CacheStore::new(1);
    let v = vec![9u8; 300];
    shard.insert("k".to_string(), &v);
    let size = shard.insert("k".to_string(), &v);
    assert_eq!(size, 300);
    assert_eq!(shard.get("k".to_string()).unwrap().val, v);
}

#[test]
fn shard_reinsert_keeps_use_count() {
    // 1 MiB holds four values of 262144 bytes.
    let mut shard = CacheStore::new(1);
    let v = vec![7u8; 262144];
    for name in ["a", "b", "c", "d"] {
        shard.insert(name.to_string(), &v);
    }
    shard.get("a".to_string());
    shard.get("a".to_string());
    // Re-inserting "a" keeps its three uses, so "b" is the least used.
    shard.insert("a".to_string(), &v);
    shard.insert("e".to_string(), &v);
    assert!(shard.get("a".to_string()).is_some());
    assert!(shard.get("b".to_string()).is_none());
    assert!(shard.get("c".to_string()).is_some());
}

#[test]
fn shard_evict_and_evict_key() {
    let mut shard = CacheStore::new(1);
    shard.insert("old".to_string(), &vec![1]);
    shard.insert("new".to_string(), &vec![2]);
    shard.touch("old".to_string());
    // "new" has fewer uses, so it goes first.
    shard.evict();
    assert!(shard.get("new".to_string()).is_none());
    assert!(shard.get("old".to_string()).is_some());
    shard.evict_key("old".to_string());
    assert!(shard.get("old".to_string()).is_none());
    assert_eq!(shard.insert("x".to_string(), &vec![5, 5]), 2);
}

#[test]
fn cache_spreads_insertions_over_shards() {
    let mut cache = Cache::new(3, 1);
    let data = sample();
    for i in 0..6 {
        cache.insert(format!("k{i}"), &data);
    }
    for i in 0..6 {
        assert_eq!(cache.shard_of(&format!("k{i}")), Some(i % 3));
    }
    assert_eq!(cache.size(), 6 * 72);
}

#[test]
fn cache_try_variants() {
    let mut cache = Cache::new(2, 1);
    assert_eq!(cache.try_insert("k".to_string(), &Vec::new()), Err(CacheError::EmptyValue));
    assert!(cache.shard_of(&"k".to_string()).is_none());
    assert_eq!(cache.try_insert("k".to_string(), &vec![1, 2]), Ok(()));
    let got = cache.try_get("k".to_string()).unwrap();
    assert_eq!(got.unwrap().val, vec![1, 2]);
    assert!(cache.try_get("nothing".to_string()).unwrap().is_none());
}

#[test]
fn dlink_list_operations() {
    let mut l: Dlinklist<u32> = Dlinklist::new();
    assert_eq!(l.front(), None);
    let a = l.push_back(1);
    let b = l.push_back(2);
    let c = l.push_front(0);
    assert_eq!(l.size(), 3);
    assert_eq!(l.front(), Some(0));
    assert_eq!(l.back(), Some(2));
    assert_eq!(l.erase(a), 1);
    assert_eq!(l.size(), 2);
    assert_eq!(l.front_clone(), Some(0));
    assert_eq!(l.back_clone(), Some(2));
    // A freed node is reused.
    let d = l.push_back(3);
    assert_eq!(d, a);
    assert_eq!(l.pop_front(), Some(0));
    assert_eq!(l.pop_back(), Some(3));
    assert_eq!(l.erase(b), 2);
    assert_eq!(l.pop_back(), None);
    assert_eq!(l.size(), 0);
    let _ = c;
}
