use code_vm_api::types::CircularBuffer;

type TestBuffer = CircularBuffer::<3, 32>;

#[test]
fn test_create_buffer() {
    let buffer = TestBuffer::new();

    assert_eq!(buffer.offset, 0);
    assert_eq!(buffer.num_items, 0);
    assert_eq!(buffer.items.len(), 3);
}

#[test]
fn test_round_trip() {
    let mut buffer = TestBuffer::new();

    let item1 = [1; 32];
    let item2 = [2; 32];
    let item3 = [3; 32];

    buffer.push(&item1);
    buffer.push(&item2);
    buffer.push(&item3);

    assert_eq!(buffer.get(0).unwrap(), &item1);
    assert_eq!(buffer.get(1).unwrap(), &item2);
    assert_eq!(buffer.get(2).unwrap(), &item3);
}

#[test]
fn test_find_index() {
    let mut buffer = TestBuffer::new();

    let item1 = [1; 32];
    let item2 = [2; 32];
    let item3 = [3; 32];

    buffer.push(&item1);
    buffer.push(&item2);
    buffer.push(&item3);

    assert_eq!(buffer.find_index(&item1).unwrap(), 0);
    assert_eq!(buffer.find_index(&item2).unwrap(), 1);
    assert_eq!(buffer.find_index(&item3).unwrap(), 2);
}

#[test]
fn test_overflow() {
    let mut buffer = TestBuffer::new();

    let item1 = [1; 32];
    let item2 = [2; 32];
    let item3 = [3; 32];
    let item4 = [4; 32];

    buffer.push(&item1);
    buffer.push(&item2);
    buffer.push(&item3);
    buffer.push(&item4);

    assert_eq!(buffer.get(0).unwrap(), &item2);
    assert_eq!(buffer.get(1).unwrap(), &item3);
    assert_eq!(buffer.get(2).unwrap(), &item4);
}

#[test]
fn test_contains() {
    let mut buffer = TestBuffer::new();

    let item1 = [1; 32];
    let item2 = [2; 32];
    let item3 = [3; 32];

    buffer.push(&item1);
    buffer.push(&item2);
    buffer.push(&item3);

    assert!(buffer.contains(&item1));
    assert!(buffer.contains(&item2));
    assert!(buffer.contains(&item3));
}

#[test]
fn test_unroll() {
    let mut buffer = TestBuffer::new();

    let item1 = [1; 32];
    let item2 = [2; 32];
    let item3 = [3; 32];
    let item4 = [4; 32];

    buffer.push(&item1);
    buffer.push(&item2);
    buffer.push(&item3);
    buffer.push(&item4);

    let list = buffer.unroll();
    assert_eq!(list.len(), 3);
    assert_eq!(list[0], item2);
    assert_eq!(list[1], item3);
    assert_eq!(list[2], item4);
}

#[test]
fn test_first_and_last() {
    let mut buffer = TestBuffer::new();

    assert!(buffer.first().is_none());
    assert!(buffer.last().is_none());

    let item1 = [1; 32];
    let item2 = [2; 32];
    let item3 = [3; 32];
    let item4 = [4; 32];

    buffer.push(&item1);
    assert!(buffer.first().unwrap().eq(&item1));
    assert!(buffer.last().unwrap().eq(&item1));

    buffer.push(&item2);
    assert!(buffer.first().unwrap().eq(&item1));
    assert!(buffer.last().unwrap().eq(&item2));

    buffer.push(&item3);
    assert!(buffer.first().unwrap().eq(&item1));
    assert!(buffer.last().unwrap().eq(&item3));

    buffer.push(&item4);
    assert!(buffer.first().unwrap().eq(&item2));
    assert!(buffer.last().unwrap().eq(&item4));
}

#[test]
fn test_various_len_items() {
    let mut buffer = TestBuffer::new();

    let item1 = [1; 4];
    let item2 = [2; 8];
    let item3 = [3; 16];
    let item4 = [4; 32];

    buffer.push(&item1);
    buffer.push(&item2);
    buffer.push(&item3);
    buffer.push(&item4);

    assert!(buffer.get(0).unwrap()[..8].eq(&item2));
    assert!(buffer.get(1).unwrap()[..16].eq(&item3));
    assert!(buffer.get(2).unwrap()[..32].eq(&item4));
}

#[test]
fn test_ignore_empty_items() {
    let mut buffer = TestBuffer::new();
    let zero_item = [0u8; 32];
    assert!(!buffer.contains(&zero_item));

    let item1 = [1u8; 32];
    buffer.push(&item1);
    assert!(!buffer.contains(&zero_item));

    buffer.push(&zero_item);
    assert!(buffer.contains(&zero_item));

    let item2 = [2u8; 32];
    let item3 = [3u8; 32];
    let item4 = [4u8; 32];

    buffer.push(&item2);
    buffer.push(&item3);
    buffer.push(&item4);

    assert!(!buffer.contains(&zero_item));
}

#[test]
fn reads_follow_the_offset_of_a_partly_filled_ring() {
    let mut buffer = CircularBuffer::<3, 32>::new();
    buffer.items[1] = [7; 32];
    buffer.items[2] = [8; 32];
    buffer.offset = 1;
    buffer.num_items = 2;
    assert_eq!(buffer.get(0), Some(&[7; 32]));
    assert_eq!(buffer.get(1), Some(&[8; 32]));
    assert_eq!(buffer.get(2), None);
    assert_eq!(buffer.first(), Some(&[7; 32]));
    assert_eq!(buffer.find_index(&[8; 32]), Some(1));
    assert!(!buffer.contains(&[0; 32]));
    assert_eq!(buffer.unroll(), vec![[7; 32], [8; 32]]);
}

#[test]
fn push_on_a_full_ring_overwrites_the_oldest_slot() {
    let mut buffer = CircularBuffer::<3, 32>::new();
    buffer.push(&[1; 32]);
    buffer.push(&[2; 32]);
    buffer.push(&[3; 32]);
    assert_eq!((buffer.offset, buffer.num_items), (0, 3));
    buffer.push(&[4; 32]);
    assert_eq!((buffer.offset, buffer.num_items), (1, 3));
    assert_eq!(buffer.items[0], [4; 32]);
    assert_eq!(buffer.items[1], [2; 32]);
    buffer.push(&[5, 5]);
    assert_eq!((buffer.offset, buffer.num_items), (2, 3));
    let mut padded = [0u8; 32];
    padded[0] = 5;
    padded[1] = 5;
    assert_eq!(buffer.items[1], padded);
}

#[test]
fn reads_wrap_around_the_ring_by_position() {
    let mut buffer = CircularBuffer::<3, 32>::new();
    buffer.items[0] = [1; 32];
    buffer.items[1] = [2; 32];
    buffer.items[2] = [3; 32];
    buffer.offset = 2;
    buffer.num_items = 5;
    assert_eq!(buffer.get(0), Some(&[3; 32]));
    assert_eq!(buffer.get(4), Some(&[1; 32]));
    assert_eq!(buffer.get(5), None);
    assert_eq!(buffer.find_index(&[2; 32]), Some(2));
    assert_eq!(buffer.unroll().len(), 5);
}
