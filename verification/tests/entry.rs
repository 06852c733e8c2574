use plain_cache::cache::entry::Entry;
use plain_cache::cache::entry::EntryPointer;
use plain_cache::cache::entry::MAX_ACCESS_COUNT;

#[test]
fn a_new_entry_was_not_read() {
    let entry = Entry::new("key", 1);

    assert_eq!(entry.get_num_accessed(), 0);
}

#[test]
fn set_num_accessed_stores_the_count() {
    let mut entry = Entry::new("key", 1);

    entry.set_num_accessed(2);
    assert_eq!(entry.get_num_accessed(), 2);
    entry.set_num_accessed(0);
    assert_eq!(entry.get_num_accessed(), 0);
    entry.set_num_accessed(MAX_ACCESS_COUNT);
    assert_eq!(entry.get_num_accessed(), 3);
}

#[test]
fn increment_num_accessed_raises_the_count_by_one() {
    let mut entry = Entry::new("key", 1);

    entry.increment_num_accessed(0);
    assert_eq!(entry.get_num_accessed(), 1);
    entry.increment_num_accessed(1);
    assert_eq!(entry.get_num_accessed(), 2);
    entry.increment_num_accessed(2);
    assert_eq!(entry.get_num_accessed(), 3);
}

#[test]
fn increment_num_accessed_reads_a_stale_count_again() {
    let mut entry = Entry::new("key", 1);
    entry.set_num_accessed(1);

    // the caller saw 0, the entry holds 1 by now: 1 is raised
    entry.increment_num_accessed(0);

    assert_eq!(entry.get_num_accessed(), 2);
}

#[test]
fn entry_pointers_compare_by_queue_and_slot() {
    assert_eq!(EntryPointer::MainQueue(3), EntryPointer::MainQueue(3));
    assert_ne!(EntryPointer::MainQueue(3), EntryPointer::SmallQueue(3));
    assert_ne!(EntryPointer::SmallQueue(2), EntryPointer::SmallQueue(3));
}
