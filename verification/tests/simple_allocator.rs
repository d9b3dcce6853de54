use code_vm_api::cvm::memory::simple::SimpleAllocator;

const CAPACITY: usize = 10;
const MAX_ITEM_SIZE: usize = 32;

type TestMemory = SimpleAllocator<CAPACITY, MAX_ITEM_SIZE>;

#[test]
fn simple_test_small_item() {
    let mut mem = TestMemory::new();

    assert!(mem.data.len() == TestMemory::capacity());

    let item_index = 0;
    let item_data = [1, 2, 3, 4, 5];

    assert!(mem.try_alloc_item(item_index, item_data.len()).is_ok());
    assert!(mem.try_write_item(item_index, &item_data).is_ok());

    let read_data = mem.read_item(item_index).unwrap();
    assert_eq!(read_data.as_slice()[..5], item_data);
}

#[test]
fn test_alloc_fail_for_out_of_bounds() {
    let mut mem = TestMemory::new();

    // Attempting to allocate an item beyond the capacity should fail
    assert!(mem.try_alloc_item(CAPACITY as u16, 10).is_err());
}

#[test]
fn test_alloc_fail_for_large_data_size() {
    let mut mem = TestMemory::new();

    // Attempting to allocate an item with data size larger than MAX_ITEM_SIZE should fail
    assert!(mem.try_alloc_item(0, MAX_ITEM_SIZE + 1).is_err());
}

#[test]
fn test_write_fail_to_unallocated_item() {
    let mut mem = TestMemory::new();

    let item_data = [1, 2, 3];

    // Writing to an unallocated item should fail
    assert!(mem.try_write_item(0, &item_data).is_err());
}

#[test]
fn test_free_item() {
    let mut mem = TestMemory::new();

    let item_index = 1;
    let item_data = [10, 20, 30, 40, 50];

    // Allocate and write to the item
    assert!(mem.try_alloc_item(item_index, item_data.len()).is_ok());
    assert!(mem.try_write_item(item_index, &item_data).is_ok());

    // Free the item
    assert!(mem.try_free_item(item_index).is_ok());

    // Reading from a freed item should return None
    assert!(mem.read_item(item_index).is_none());

    // The state should be set to empty
    assert!(mem.is_empty(item_index));
}

#[test]
fn test_realloc_item_after_free() {
    let mut mem = TestMemory::new();

    let item_index = 2;
    let item_data1 = [10, 20, 30];
    let item_data2 = [5, 15, 25, 35];

    // Allocate and write to the item
    assert!(mem.try_alloc_item(item_index, item_data1.len()).is_ok());
    assert!(mem.try_write_item(item_index, &item_data1).is_ok());

    // Free the item
    assert!(mem.try_free_item(item_index).is_ok());

    // Reallocate and write new data
    assert!(mem.try_alloc_item(item_index, item_data2.len()).is_ok());
    assert!(mem.try_write_item(item_index, &item_data2).is_ok());

    // Reading from the item should return the new data
    let read_data = mem.read_item(item_index).unwrap();
    assert_eq!(read_data.as_slice()[..item_data2.len()], item_data2);
}

#[test]
fn test_free_unallocated_item() {
    let mut mem = TestMemory::new();

    let item_index = 0;

    // Attempting to free an unallocated item should fail
    assert!(mem.try_free_item(item_index).is_err());
}

#[test]
fn test_alloc_multiple_items() {
    let mut mem = TestMemory::new();

    let item_data1 = [1, 2, 3];
    let item_data2 = [4, 5, 6, 7];
    let item_data3 = [8, 9, 10, 11, 12];

    // Allocate and write to multiple items
    assert!(mem.try_alloc_item(0, item_data1.len()).is_ok());
    assert!(mem.try_write_item(0, &item_data1).is_ok());

    assert!(mem.try_alloc_item(1, item_data2.len()).is_ok());
    assert!(mem.try_write_item(1, &item_data2).is_ok());

    assert!(mem.try_alloc_item(2, item_data3.len()).is_ok());
    assert!(mem.try_write_item(2, &item_data3).is_ok());

    // Verify data from all items
    let read_data1 = mem.read_item(0).unwrap();
    assert_eq!(read_data1.as_slice()[..item_data1.len()], item_data1);

    let read_data2 = mem.read_item(1).unwrap();
    assert_eq!(read_data2.as_slice()[..item_data2.len()], item_data2);

    let read_data3 = mem.read_item(2).unwrap();
    assert_eq!(read_data3.as_slice()[..item_data3.len()], item_data3);
}

#[test]
fn test_full_capacity_allocations() {
    let mut mem = TestMemory::new();

    // Allocate all items up to capacity
    for i in 0..CAPACITY {
        assert!(mem.try_alloc_item(i as u16, 1).is_ok());
        assert!(mem.try_write_item(i as u16, &[1]).is_ok());
    }

    // Any further allocation should fail
    assert!(mem.try_alloc_item(CAPACITY as u16, 1).is_err());
}

fn store_and_drop<A: code_vm_api::cvm::memory::allocator::MemoryAllocator>(mem: &mut A, index: u16) {
    assert!(A::is_empty(mem, index));
    assert!(A::try_alloc_item(mem, index, 4).is_ok());
    assert!(A::has_item(mem, index));
    assert!(A::try_alloc_item(mem, index, 4).is_err());
    assert!(A::try_write_item(mem, index, &[9, 8, 7]).is_ok());
    let read = A::read_item(mem, index).unwrap();
    assert_eq!(&read[..3], &[9, 8, 7]);
    assert!(read[3..].iter().all(|b| *b == 0));
    assert!(A::try_free_item(mem, index).is_ok());
    assert!(A::is_empty(mem, index));
    assert_eq!(A::read_item(mem, index), None);
    assert!(A::try_write_item(mem, index, &[1]).is_err());
}

#[test]
fn both_layouts_serve_as_memory_allocators() {
    let mut simple = TestMemory::new();
    store_and_drop(&mut simple, 3);
    let mut paged = Box::new(code_vm_api::cvm::memory::paged::PagedAllocator::<20, 2, 10, 8>::new());
    store_and_drop(paged.as_mut(), 7);
}
