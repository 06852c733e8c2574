use plain_cache::cache::capacity_per_shard;
use plain_cache::cache::number_of_shards;
use plain_cache::cache::shard_index;
use plain_cache::Cache;
use plain_cache::Stats;
use std::collections::hash_map::RandomState;

/// The number of threads that the tests build their caches for.
const PARALLELISM: usize = 4;

#[test]
fn it_inserts_and_gets_basic_values() {
    // given
    let mut cache = Cache::with_capacity(100, PARALLELISM);

    // when
    cache.insert("key1", "value1");

    // then
    assert_eq!(cache.get(&"key1"), Some("value1"));
    assert_eq!(cache.get(&"key2"), None);
}

#[test]
fn it_updates_existing_value() {
    // given
    let mut cache = Cache::with_capacity(100, PARALLELISM);
    cache.insert("key1", "value1");

    // when
    let old_value = cache.insert("key1", "new_value");

    // then
    assert_eq!(old_value, Some("value1"));
    assert_eq!(cache.get(&"key1"), Some("new_value"));
}

#[test]
fn it_handles_zero_capacity() {
    // given
    let mut cache = Cache::with_capacity(0, PARALLELISM);

    // when
    cache.insert("key1", "value1");

    // then
    assert_eq!(cache.get(&"key1"), None);
}

#[test]
fn it_handles_one_capacity() {
    // given
    let mut cache = Cache::with_capacity(1, PARALLELISM);

    // when
    cache.insert("key1", "value1");

    // then
    assert_eq!(cache.get(&"key1"), Some("value1"));
    assert_eq!(cache.get(&"key2"), None);
}

#[test]
fn it_works_with_custom_hasher() {
    // given
    let mut cache = Cache::with_capacity_and_hasher(100, PARALLELISM, RandomState::new());

    // when
    cache.insert("key1", "value1");

    // then
    assert_eq!(cache.get(&"key1"), Some("value1"));
}

#[test]
fn it_respects_capacity_limits() {
    // given
    let mut cache = Cache::with_capacity(2, PARALLELISM);

    // when
    cache.insert("key1", "value1");
    cache.insert("key2", "value2");
    cache.insert("key3", "value3");
    cache.insert("key4", "value4");

    // then
    assert_eq!(cache.get(&"key1"), None);
}

#[test]
fn it_returns_and_resets_stats() {
    // given
    let mut cache = Cache::with_capacity(1_000, PARALLELISM);

    // when
    for i in 0..10 {
        cache.insert(i, i);
    }

    // 5 hits
    for i in 0..5 {
        cache.get(&i);
    }

    // 5 misses
    for i in 10..15 {
        cache.get(&i);
    }

    // then
    let stats = cache.stats(0);
    assert_eq!(stats.hit_count, 5);
    assert_eq!(stats.miss_count, 5);

    let stats = cache.stats(0);
    assert_eq!(stats.hit_count, 0);
    assert_eq!(stats.miss_count, 0);
}

#[test]
fn stats_carry_the_time_and_count_evictions() {
    let mut cache = Cache::with_capacity(2, 1);
    cache.insert("key1", "value1");
    cache.insert("key2", "value2");
    cache.insert("key3", "value3");
    cache.get(&"key3");
    cache.get(&"key1");

    assert_eq!(
        cache.stats(1234),
        Stats {
            miss_count: 1,
            hit_count: 1,
            eviction_count: 2,
            millis_elapsed: 1234
        }
    );
    assert_eq!(
        cache.stats(5),
        Stats {
            miss_count: 0,
            hit_count: 0,
            eviction_count: 0,
            millis_elapsed: 5
        }
    );
}

#[test]
fn there_are_four_shards_for_each_thread_but_no_more_than_the_capacity() {
    assert_eq!(number_of_shards(4, 1_000), 16);
    assert_eq!(number_of_shards(4, 16), 16);
    assert_eq!(number_of_shards(4, 15), 15);
    assert_eq!(number_of_shards(4, 2), 2);
    assert_eq!(number_of_shards(1, 0), 0);
    assert_eq!(number_of_shards(0, 10), 0);
    assert_eq!(number_of_shards(usize::MAX, 7), 7);
    assert_eq!(number_of_shards(usize::MAX, usize::MAX), usize::MAX);
}

#[test]
fn the_capacity_of_a_shard_is_rounded_up() {
    assert_eq!(capacity_per_shard(1_000, 16), 63);
    assert_eq!(capacity_per_shard(2, 2), 1);
    assert_eq!(capacity_per_shard(10, 3), 4);
    assert_eq!(capacity_per_shard(9, 3), 3);
    assert_eq!(capacity_per_shard(0, 3), 0);
    assert_eq!(capacity_per_shard(usize::MAX, 1), usize::MAX);
    assert_eq!(capacity_per_shard(usize::MAX, 2), usize::MAX / 2 + 1);
}

#[test]
fn a_key_goes_to_the_shard_of_its_hash() {
    assert_eq!(shard_index(10, 0), None);
    assert_eq!(shard_index(10, 1), Some(0));
    assert_eq!(shard_index(11, 2), Some(0));
    assert_eq!(shard_index(10, 4), Some(1));
    assert_eq!(shard_index(11, 4), Some(2));
    assert_eq!(shard_index(12, 4), Some(0));
    assert_eq!(shard_index(15, 16), Some(0));
    assert_eq!(shard_index(14, 16), Some(14));
}

#[test]
fn inserts_and_reads_under_a_hash_meet_in_one_shard() {
    let mut cache = Cache::with_capacity(100, PARALLELISM);

    assert_eq!(cache.insert_hashed(1, "key", 1), None);
    // another hash leads to another shard, which does not know the key
    assert_eq!(cache.get_hashed(2, &"key"), None);
    assert_eq!(cache.insert_hashed(2, "key", 2), None);

    assert_eq!(cache.get_hashed(1, &"key"), Some(1));
    assert_eq!(cache.get_hashed(2, &"key"), Some(2));
    assert_eq!(cache.insert_hashed(1, "key", 3), Some(1));
    // 16 modulo 15 is 1: the same shard as under the hash 1
    assert_eq!(cache.get_hashed(16, &"key"), Some(3));
}

#[test]
fn a_cache_taken_apart_hands_out_its_shards_in_order() {
    let mut cache = Cache::with_capacity(100, PARALLELISM);
    cache.insert_hashed(3, "key", 7);

    let (_hash_builder, mut shards) = cache.into_parts();

    assert_eq!(shards.len(), 16);
    assert_eq!(shards[3].get(&"key"), Some(7));
    assert_eq!(shards[2].get(&"key"), None);
}

#[test]
fn a_cache_holds_no_more_keys_than_its_shards_have_slots() {
    // 4 shards of 3 entries each
    let mut cache = Cache::with_capacity(10, 1);

    for i in 0..200u32 {
        cache.insert(i, i);
        cache.get(&(i / 2));
    }

    let mut held = 0;
    for i in 0..200u32 {
        if cache.get(&i).is_some() {
            held += 1;
        }
    }
    assert!(held <= 12);
    assert_eq!(cache.get(&199), Some(199));
}
