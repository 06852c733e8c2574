use plain_cache::cache::ring_buffer::RingBuffer;

#[test]
fn it_is_empty() {
    // given
    let mut ring_buffer = RingBuffer::with_capacity(1);

    // when
    ring_buffer.push_back(String::from("hello world")).unwrap();
    ring_buffer.pop_front();
    let is_empty = ring_buffer.is_empty();

    // then
    assert!(is_empty)
}

#[test]
fn it_is_not_empty() {
    // given
    let mut ring_buffer = RingBuffer::with_capacity(1);

    // when
    ring_buffer.push_back(String::from("hello world")).unwrap();
    let is_empty = ring_buffer.is_empty();

    // then
    assert!(!is_empty)
}

#[test]
fn it_is_full() {
    // given
    let mut ring_buffer = RingBuffer::with_capacity(1);

    // when
    ring_buffer.push_back(String::from("hello world")).unwrap();
    let is_full = ring_buffer.is_full();

    // then
    assert!(is_full)
}

#[test]
fn it_is_not_full() {
    // given
    let mut ring_buffer = RingBuffer::with_capacity(1);

    // when
    ring_buffer.push_back(String::from("hello world")).unwrap();
    ring_buffer.pop_front();
    let is_full = ring_buffer.is_full();

    // then
    assert!(!is_full)
}

#[test]
fn it_pushes_back_by_wrapping_around() {
    // given
    let mut ring_buffer = RingBuffer::with_capacity(5);
    ring_buffer.push_back(String::from("first")).unwrap();
    ring_buffer.push_back(String::from("second")).unwrap();
    ring_buffer.push_back(String::from("third")).unwrap();
    ring_buffer.push_back(String::from("fourth")).unwrap();
    ring_buffer.push_back(String::from("fifth")).unwrap();
    ring_buffer.pop_front();
    ring_buffer.pop_front();
    ring_buffer.pop_front();

    // buffer.len   - - - - -
    // len                - -
    // head               |
    //             [N N N S S ]
    assert_eq!(ring_buffer.head, 3);
    assert_eq!(ring_buffer.buffer.len(), 5);
    assert_eq!(ring_buffer.len, 2);

    // when
    let idx = ring_buffer.push_back(String::from("sixth")).unwrap();

    // then

    // buffer.len   - - - - -
    // len          -     - -
    // head               |
    //             [S N N S S ]
    assert_eq!(idx, 0);
    assert_eq!(ring_buffer.head, 3);
    assert_eq!(ring_buffer.buffer.len(), 5);
    assert_eq!(ring_buffer.len, 3);
}

#[test]
fn it_pushes_back_when_fully_wrapped() {
    // given
    let mut ring_buffer = RingBuffer::with_capacity(5);
    ring_buffer.push_back(String::from("first")).unwrap();
    ring_buffer.push_back(String::from("second")).unwrap();
    ring_buffer.push_back(String::from("third")).unwrap();
    ring_buffer.push_back(String::from("fourth")).unwrap();
    ring_buffer.push_back(String::from("fifth")).unwrap();
    ring_buffer.pop_front();
    ring_buffer.pop_front();
    ring_buffer.pop_front();
    ring_buffer.pop_front();
    ring_buffer.pop_front();

    // buffer.len   - - - - -
    // len
    // head         |
    //             [N N N N N ]
    assert_eq!(ring_buffer.head, 0);
    assert_eq!(ring_buffer.buffer.len(), 5);
    assert_eq!(ring_buffer.len, 0);

    // when
    let idx = ring_buffer.push_back(String::from("sixth")).unwrap();

    // then

    // buffer.len   - - - - -
    // len          -
    // head         |
    //             [S N N N N ]
    assert_eq!(idx, 0);
    assert_eq!(ring_buffer.head, 0);
    assert_eq!(ring_buffer.buffer.len(), 5);
    assert_eq!(ring_buffer.len, 1);
}

#[test]
fn it_does_not_push_back_when_full() {
    // given
    let mut ring_buffer = RingBuffer::with_capacity(5);
    ring_buffer.push_back(String::from("first")).unwrap();
    ring_buffer.push_back(String::from("second")).unwrap();
    ring_buffer.push_back(String::from("third")).unwrap();
    ring_buffer.push_back(String::from("fourth")).unwrap();
    ring_buffer.push_back(String::from("fifth")).unwrap();

    // when
    let option = ring_buffer.push_back(String::from("sixth"));

    // then
    assert!(option.is_none());
}

#[test]
fn it_handles_deletions() {
    // given
    let mut ring_buffer = RingBuffer::with_capacity(5);
    ring_buffer.push_back(String::from("first")).unwrap();
    ring_buffer.push_back(String::from("second")).unwrap();
    ring_buffer.push_back(String::from("third")).unwrap();
    ring_buffer.push_back(String::from("fourth")).unwrap();
    ring_buffer.push_back(String::from("fifth")).unwrap();
    ring_buffer.pop_front();
    ring_buffer.pop_front();
    ring_buffer.pop_front();

    ring_buffer.remove(3);
    // buffer.len   - - - - -
    // len                - -
    // head               |
    //             [N N N N S ]
    assert_eq!(ring_buffer.head, 3);
    assert_eq!(ring_buffer.buffer.len(), 5);
    assert_eq!(ring_buffer.len, 2);

    // when
    let item = ring_buffer.pop_front().unwrap();

    // then

    // buffer.len   - - - - -
    // len
    // head         |
    //             [N N N N N ]
    assert!(ring_buffer.is_empty());
    assert_eq!(ring_buffer.head, 0);
    assert_eq!(ring_buffer.buffer.len(), 5);
    assert_eq!(ring_buffer.len, 0);
    assert_eq!(item, "fifth")
}

#[test]
fn a_buffer_without_slots_is_empty_and_full() {
    let mut ring_buffer: RingBuffer<u32> = RingBuffer::with_capacity(0);

    assert!(ring_buffer.is_empty());
    assert!(ring_buffer.is_full());
    assert_eq!(ring_buffer.push_back(7), None);
    assert_eq!(ring_buffer.pop_front(), None);
    assert_eq!(ring_buffer.get(0), None);
}

#[test]
fn push_back_returns_the_tail_index() {
    let mut ring_buffer = RingBuffer::with_capacity(3);

    assert_eq!(ring_buffer.push_back(10), Some(0));
    assert_eq!(ring_buffer.push_back(11), Some(1));
    assert_eq!(ring_buffer.push_back(12), Some(2));
    assert_eq!(ring_buffer.push_back(13), None);
    assert_eq!(ring_buffer.pop_front(), Some(10));
    assert_eq!(ring_buffer.push_back(13), Some(0));
    assert_eq!(ring_buffer.get(0), Some(&13));
    assert_eq!(ring_buffer.get(1), Some(&11));
    assert_eq!(ring_buffer.get(3), None);
}

#[test]
fn remove_leaves_a_hole_that_counts_until_popped() {
    let mut ring_buffer = RingBuffer::with_capacity(3);
    ring_buffer.push_back('a').unwrap();
    ring_buffer.push_back('b').unwrap();
    ring_buffer.push_back('c').unwrap();

    assert_eq!(ring_buffer.remove(0), Some('a'));
    assert_eq!(ring_buffer.remove(0), None);
    assert_eq!(ring_buffer.get(0), None);
    assert_eq!(ring_buffer.head, 0);
    assert_eq!(ring_buffer.len, 3);
    assert!(ring_buffer.is_full());
    assert_eq!(ring_buffer.push_back('d'), None);

    // the pop skips the hole and hands out the next item
    assert_eq!(ring_buffer.pop_front(), Some('b'));
    assert_eq!(ring_buffer.head, 2);
    assert_eq!(ring_buffer.len, 1);
}

#[test]
fn pop_front_over_holes_only_empties_the_buffer() {
    let mut ring_buffer = RingBuffer::with_capacity(4);
    ring_buffer.push_back(1).unwrap();
    ring_buffer.push_back(2).unwrap();
    ring_buffer.pop_front();
    ring_buffer.push_back(3).unwrap();
    ring_buffer.remove(1);
    ring_buffer.remove(2);

    assert_eq!(ring_buffer.head, 1);
    assert_eq!(ring_buffer.len, 2);
    assert_eq!(ring_buffer.pop_front(), None);
    assert_eq!(ring_buffer.head, 3);
    assert_eq!(ring_buffer.len, 0);
    assert!(ring_buffer.is_empty());
}

#[test]
fn wrap_add_goes_round() {
    let ring_buffer: RingBuffer<u8> = RingBuffer::with_capacity(5);

    assert_eq!(ring_buffer.wrap_add(0, 0), 0);
    assert_eq!(ring_buffer.wrap_add(3, 1), 4);
    assert_eq!(ring_buffer.wrap_add(4, 1), 0);
    assert_eq!(ring_buffer.wrap_add(3, 4), 2);
    assert_eq!(ring_buffer.wrap_add(2, 5), 2);
    // an index past the last slot is taken back by one lap, not more
    assert_eq!(ring_buffer.wrap_add(7, 0), 2);
    assert_eq!(ring_buffer.wrap_add(7, 4), 6);
    assert_eq!(ring_buffer.wrap_add(usize::MAX, 5), usize::MAX);
}
