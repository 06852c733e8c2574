use plain_cache::cache::stats::Counters;
use plain_cache::cache::stats::Stats;

#[test]
fn counters_start_at_zero() {
    let counters = Counters::default();

    assert_eq!(counters.hit_count(), 0);
    assert_eq!(counters.miss_count(), 0);
    assert_eq!(counters.eviction_count(), 0);
}

#[test]
fn each_increment_raises_its_own_count() {
    let mut counters = Counters::default();

    counters.increment_hit_count();
    counters.increment_hit_count();
    counters.increment_miss_count();
    counters.increment_eviction_count();
    counters.increment_eviction_count();
    counters.increment_eviction_count();

    assert_eq!(counters.hit_count(), 2);
    assert_eq!(counters.miss_count(), 1);
    assert_eq!(counters.eviction_count(), 3);
}

#[test]
fn reset_sets_every_count_to_zero() {
    let mut counters = Counters::default();
    counters.increment_hit_count();
    counters.increment_miss_count();
    counters.increment_eviction_count();

    counters.reset();

    assert_eq!(counters.hit_count(), 0);
    assert_eq!(counters.miss_count(), 0);
    assert_eq!(counters.eviction_count(), 0);
}

#[test]
fn default_stats_are_zero() {
    let stats = Stats::default();

    assert_eq!(
        stats,
        Stats {
            miss_count: 0,
            hit_count: 0,
            eviction_count: 0,
            millis_elapsed: 0
        }
    );
}

#[test]
fn absorb_adds_the_counts_and_keeps_the_time() {
    let mut stats = Stats {
        miss_count: 1,
        hit_count: 2,
        eviction_count: 3,
        millis_elapsed: 40,
    };

    stats.absorb(10, 20, 30);

    assert_eq!(
        stats,
        Stats {
            miss_count: 21,
            hit_count: 12,
            eviction_count: 33,
            millis_elapsed: 40
        }
    );
}
