use boosterpack::queuebuf::QueueBuf;

#[test]
fn new_buffer_is_empty() {
    let q = QueueBuf::new(vec![0u8; 8]);
    assert!(q.is_empty());
    assert!(!q.has_data());
    assert!(!q.is_full());
    assert_eq!(q.slots_left(), 7);
}

#[test]
fn bytes_come_out_in_insertion_order() {
    let mut q = QueueBuf::new(vec![0u8; 8]);
    for b in [10u8, 20, 30, 40] {
        q.put(b);
    }
    assert_eq!(q.get(), 10);
    assert_eq!(q.get(), 20);
    q.put(50);
    assert_eq!(q.get(), 30);
    assert_eq!(q.get(), 40);
    assert_eq!(q.get(), 50);
    assert!(q.is_empty());
}

#[test]
fn full_at_one_less_than_storage() {
    let mut q = QueueBuf::new(vec![0u8; 4]);
    q.put(1);
    q.put(2);
    assert!(!q.is_full());
    assert_eq!(q.slots_left(), 1);
    q.put(3);
    assert!(q.is_full());
    assert_eq!(q.slots_left(), 0);
    assert!(q.has_data());
}

#[test]
fn cursors_wrap_around_the_storage() {
    let mut q = QueueBuf::new(vec![0u8; 4]);
    let mut expected = 0u8;
    for round in 0u8..10 {
        q.put(round);
        q.put(round.wrapping_add(100));
        assert_eq!(q.slots_left(), 1);
        assert_eq!(q.get(), expected);
        expected = round.wrapping_add(100);
        assert_eq!(q.slots_left(), 2);
        assert_eq!(q.get(), expected);
        expected = round + 1;
        assert!(q.is_empty());
    }
}

#[test]
fn slots_left_after_wrap_with_write_behind_read() {
    let mut q = QueueBuf::new(vec![0u8; 8]);
    for b in 0u8..6 {
        q.put(b);
    }
    for _ in 0..5 {
        q.get();
    }
    // read cursor at slot 5, write cursor at slot 6
    q.put(6);
    q.put(7);
    q.put(8);
    // write cursor wrapped to slot 1
    assert_eq!(q.slots_left(), 3);
    assert_eq!(q.get(), 5);
    assert_eq!(q.get(), 6);
    assert_eq!(q.get(), 7);
    assert_eq!(q.get(), 8);
    assert_eq!(q.slots_left(), 7);
}

#[test]
fn single_byte_storage_holds_nothing() {
    let q = QueueBuf::new(vec![0u8; 1]);
    assert!(q.is_empty());
    assert!(q.is_full());
    assert_eq!(q.slots_left(), 0);
}

#[test]
fn largest_storage() {
    let mut q = QueueBuf::new(vec![0u8; 0x10000]);
    assert_eq!(q.slots_left(), 0xFFFF);
    for i in 0..0xFFFFu32 {
        q.put(i as u8);
    }
    assert!(q.is_full());
    for i in 0..0xFFFFu32 {
        assert_eq!(q.get(), i as u8);
    }
    assert!(q.is_empty());
}
