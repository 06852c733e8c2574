use ahash::RandomState;
use plain_cache::cache::shard::Shard;

fn shard_for(capacity: usize) -> Shard<&'static str, u32, RandomState> {
    Shard::with_capacity_and_hasher(capacity, RandomState::new())
}

/// Inserts `key` and reads it twice, so that the small queue promotes it
/// when it evicts it.
fn insert_and_read_twice(shard: &mut Shard<&'static str, u32, RandomState>, key: &'static str, value: u32) {
    shard.insert(key, value);
    assert_eq!(shard.get(&key), Some(value));
    assert_eq!(shard.get(&key), Some(value));
}

#[test]
fn a_new_shard_holds_nothing() {
    let mut shard = shard_for(10);

    assert_eq!(shard.get(&"a"), None);
    assert_eq!(shard.hit_count(), 0);
    assert_eq!(shard.miss_count(), 1);
    assert_eq!(shard.eviction_count(), 0);
}

#[test]
fn an_insert_is_found_by_the_next_read() {
    let mut shard = shard_for(10);

    assert_eq!(shard.insert("a", 1), None);

    assert_eq!(shard.get(&"a"), Some(1));
    assert_eq!(shard.get(&"b"), None);
}

#[test]
fn a_second_insert_returns_the_first_value_and_overwrites_it() {
    let mut shard = shard_for(10);
    assert_eq!(shard.insert("a", 1), None);

    assert_eq!(shard.insert("a", 2), Some(1));

    assert_eq!(shard.get(&"a"), Some(2));
    assert_eq!(shard.insert("a", 3), Some(2));
    assert_eq!(shard.get(&"a"), Some(3));
}

#[test]
fn a_miss_changes_no_membership() {
    let mut shard = shard_for(10);
    shard.insert("a", 1);

    assert_eq!(shard.get(&"b"), None);
    assert_eq!(shard.get(&"b"), None);

    assert_eq!(shard.get(&"a"), Some(1));
    assert_eq!(shard.miss_count(), 2);
    assert_eq!(shard.hit_count(), 1);
}

#[test]
fn an_entry_read_at_most_once_is_retired_from_the_small_queue() {
    // a capacity of 10 gives a small queue of one slot
    let mut shard = shard_for(10);
    shard.insert("a", 1);
    assert_eq!(shard.get(&"a"), Some(1));

    shard.insert("b", 2);

    assert_eq!(shard.get(&"a"), None);
    assert_eq!(shard.get(&"b"), Some(2));
    assert_eq!(shard.eviction_count(), 1);
}

#[test]
fn an_entry_read_twice_is_promoted_to_the_main_queue() {
    let mut shard = shard_for(10);
    insert_and_read_twice(&mut shard, "a", 1);

    shard.insert("b", 2);
    shard.insert("c", 3);

    assert_eq!(shard.get(&"a"), Some(1));
    assert_eq!(shard.get(&"b"), None);
    assert_eq!(shard.get(&"c"), Some(3));
    assert_eq!(shard.eviction_count(), 1);
}

#[test]
fn a_retired_key_that_comes_back_is_admitted_to_the_main_queue() {
    let mut shard = shard_for(10);
    shard.insert("a", 1);
    // "a" leaves the small queue unread and goes to the ghost set
    shard.insert("b", 2);
    assert_eq!(shard.get(&"a"), None);

    // the ghost set knows "a": it goes to the main queue, and "b" stays
    assert_eq!(shard.insert("a", 10), None);
    assert_eq!(shard.get(&"b"), Some(2));

    // the small queue turns over twice; "a" is not touched by that
    shard.insert("c", 3);
    shard.insert("d", 4);
    assert_eq!(shard.get(&"a"), Some(10));
    assert_eq!(shard.get(&"b"), None);
    assert_eq!(shard.get(&"c"), None);
    assert_eq!(shard.get(&"d"), Some(4));
}

#[test]
fn the_main_queue_evicts_the_first_entry_that_was_not_read() {
    // a capacity of 3 gives a small queue of one slot and a main queue of two
    let mut shard = shard_for(3);
    insert_and_read_twice(&mut shard, "a", 1);
    insert_and_read_twice(&mut shard, "b", 2);
    // "c" pushes "b" out of the small queue: the main queue holds "a", "b"
    insert_and_read_twice(&mut shard, "c", 3);
    // one read of "a" in the main queue
    assert_eq!(shard.get(&"a"), Some(1));
    assert_eq!(shard.eviction_count(), 0);

    // "d" pushes "c" out of the small queue; the main queue is full, sends
    // "a" back to its tail with a count of 0 and evicts "b"
    shard.insert("d", 4);

    assert_eq!(shard.eviction_count(), 1);
    assert_eq!(shard.get(&"b"), None);
    assert_eq!(shard.get(&"a"), Some(1));
    assert_eq!(shard.get(&"c"), Some(3));
    assert_eq!(shard.get(&"d"), Some(4));
}

#[test]
fn an_access_count_stops_at_three() {
    let mut shard = shard_for(3);
    insert_and_read_twice(&mut shard, "a", 1);
    insert_and_read_twice(&mut shard, "b", 2);
    insert_and_read_twice(&mut shard, "c", 3);
    // the main queue holds "a" and "b"; "a" is read ten times, "b" three
    // times, and both counts stand at 3
    for _ in 0..10 {
        assert_eq!(shard.get(&"a"), Some(1));
    }
    assert_eq!(shard.get(&"b"), Some(2));
    assert_eq!(shard.get(&"b"), Some(2));
    assert_eq!(shard.get(&"b"), Some(2));

    // "d" pushes "c" out of the small queue into the full main queue, which
    // takes one off the counts of "a" and "b" in turn until one is popped
    // with a count of 0: that is "a", which stands before "b"
    shard.insert("d", 4);

    assert_eq!(shard.eviction_count(), 1);
    assert_eq!(shard.get(&"a"), None);
    assert_eq!(shard.get(&"b"), Some(2));
    assert_eq!(shard.get(&"c"), Some(3));
    assert_eq!(shard.get(&"d"), Some(4));
}

#[test]
fn an_update_resets_the_access_count() {
    let mut shard = shard_for(10);
    insert_and_read_twice(&mut shard, "a", 1);
    // the update makes a fresh entry for "a", read 0 times
    assert_eq!(shard.insert("a", 5), Some(1));

    shard.insert("b", 2);
    shard.insert("c", 3);

    // "a" was not promoted: it was retired when "c" came
    assert_eq!(shard.get(&"a"), None);
    assert_eq!(shard.get(&"b"), None);
    assert_eq!(shard.get(&"c"), Some(3));
}

#[test]
fn a_shard_never_holds_more_keys_than_it_has_slots() {
    let keys = [
        "k00", "k01", "k02", "k03", "k04", "k05", "k06", "k07", "k08", "k09", "k10", "k11", "k12",
        "k13", "k14", "k15", "k16", "k17", "k18", "k19", "k20", "k21", "k22", "k23", "k24", "k25",
        "k26", "k27", "k28", "k29",
    ];
    let mut shard = shard_for(10);

    for round in 0..4 {
        for (i, key) in keys.iter().enumerate() {
            shard.insert(*key, i as u32);
            if (i + round) % 3 == 0 {
                shard.get(key);
                shard.get(key);
            }
            let held = keys.iter().filter(|key| shard.get(key).is_some()).count();
            assert!(held <= 10);
            assert_eq!(shard.get(key), Some(i as u32));
        }
    }
}

#[test]
fn an_insert_lets_at_most_one_other_key_go() {
    let keys = [
        "k00", "k01", "k02", "k03", "k04", "k05", "k06", "k07", "k08", "k09", "k10", "k11", "k12",
        "k13", "k14", "k15", "k16", "k17", "k18", "k19",
    ];
    let mut shard = shard_for(5);

    for round in 0..5 {
        for (i, key) in keys.iter().enumerate() {
            if (i + round) % 2 == 0 {
                shard.get(key);
            }
            let before: Vec<&str> = keys
                .iter()
                .filter(|other| *other != key && shard.get(other).is_some())
                .copied()
                .collect();

            shard.insert(*key, i as u32);

            let gone = before.iter().filter(|other| shard.get(other).is_none()).count();
            assert!(gone <= 1);
            for other in keys.iter().filter(|other| *other != key) {
                if shard.get(other).is_some() {
                    assert!(before.contains(other));
                }
            }
        }
    }
}

#[test]
fn a_shard_for_no_entries_still_has_two_slots() {
    let mut shard = shard_for(0);

    shard.insert("a", 1);
    assert_eq!(shard.get(&"a"), Some(1));
    shard.insert("b", 2);
    assert_eq!(shard.get(&"a"), None);
    assert_eq!(shard.get(&"b"), Some(2));
}

#[test]
fn the_counters_count_and_reset() {
    let mut shard = shard_for(10);
    shard.insert("a", 1);
    shard.insert("b", 2);
    shard.get(&"b");
    shard.get(&"b");
    shard.get(&"a");
    shard.get(&"c");

    assert_eq!(shard.hit_count(), 2);
    assert_eq!(shard.miss_count(), 2);
    assert_eq!(shard.eviction_count(), 1);

    shard.reset_counters();

    assert_eq!(shard.hit_count(), 0);
    assert_eq!(shard.miss_count(), 0);
    assert_eq!(shard.eviction_count(), 0);
    assert_eq!(shard.get(&"b"), Some(2));
}
