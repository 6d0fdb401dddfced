use maelstrom::MessageIdCounter;

#[test]
fn the_first_id_is_one() {
    let mut counter = MessageIdCounter::new();
    assert_eq!(counter.next_msg_id(), 1);
}

#[test]
fn each_id_is_one_more_than_the_last() {
    let mut counter = MessageIdCounter::new();
    let mut last = 0;
    for expected in 1..=1000 {
        let id = counter.next_msg_id();
        assert_eq!(id, expected);
        assert!(id > last);
        last = id;
    }
}

#[test]
fn has_room_counts_up_to_the_largest_id() {
    let mut counter = MessageIdCounter::new();
    assert!(counter.has_room(0));
    assert!(counter.has_room(1));
    assert!(counter.has_room(usize::MAX));
    counter.next_msg_id();
    assert!(counter.has_room(usize::MAX - 1));
    assert!(!counter.has_room(usize::MAX));
}
