use code_vm_api::cvm::memory::paged::PagedAllocator;

const NUM_SECTORS: usize = 10;
const NUM_PAGES: usize = 255;
const MAX_ITEMS: usize = NUM_SECTORS * NUM_PAGES;
const PAGE_SIZE: usize = 32;

type TestMemory = PagedAllocator<MAX_ITEMS, NUM_SECTORS, NUM_PAGES, PAGE_SIZE>;

#[test]
fn paged_test_small_item() {
    let mut mem = Box::new(TestMemory::new());

    assert!(mem.items.len() == TestMemory::max_items());
    assert!(mem.sectors.len() == TestMemory::num_sectors());

    let item_index = 0;
    let item_data = [1, 2, 3, 4, 5];

    assert!(mem.try_alloc_item(item_index, item_data.len()).is_ok());
    assert!(mem.try_write_item(item_index, &item_data).is_ok());

    let read_data = mem.read_item(item_index).unwrap();
    assert_eq!(read_data.as_slice()[..5], item_data);
}

#[test]
fn test_large_item() {
    let mut mem = Box::new(TestMemory::new());

    let item_index = 0;
    let item_data: [u8; 256] = (0..=255).collect::<Vec<u8>>().try_into().unwrap();

    assert!(mem.try_alloc_item(item_index, item_data.len()).is_ok());
    assert!(mem.try_write_item(item_index, &item_data).is_ok());

    let read_data = mem.read_item(item_index).unwrap();
    assert_eq!(read_data.as_slice()[..item_data.len()], item_data);
}

#[test]
fn test_multiple_items() {
    let mut mem = Box::new(TestMemory::new());

    let a: [u8; 42] = [42; 42];
    let b: [u8; 69] = [69; 69];
    let c: [u8; 137] = [137; 137];

    assert!(mem.try_alloc_item(0, a.len()).is_ok());
    assert!(mem.try_alloc_item(1, b.len()).is_ok());
    assert!(mem.try_alloc_item(2, c.len()).is_ok());

    assert!(mem.try_write_item(0, &a).is_ok());
    assert!(mem.try_write_item(1, &b).is_ok());
    assert!(mem.try_write_item(2, &c).is_ok());

    let read_a = mem.read_item(0).unwrap();
    let read_b = mem.read_item(1).unwrap();
    let read_c = mem.read_item(2).unwrap();

    assert_eq!(read_a.as_slice()[..42], a);
    assert_eq!(read_b.as_slice()[..69], b);
    assert_eq!(read_c.as_slice()[..137], c);
}

#[test]
fn test_random_allocate() {
    let mut mem = Box::new(TestMemory::new());

    let a: [u8; 42] = [42; 42];
    let b: [u8; 69] = [69; 69];
    let c: [u8; 137] = [137; 137];

    assert!(mem.try_alloc_item(192, a.len()).is_ok());
    assert!(mem.try_alloc_item(180, b.len()).is_ok());
    assert!(mem.try_alloc_item(28, c.len()).is_ok());

    assert!(mem.try_write_item(192, &a).is_ok());
    assert!(mem.try_write_item(180, &b).is_ok());
    assert!(mem.try_write_item(28, &c).is_ok());

    let read_a = mem.read_item(192).unwrap();
    let read_b = mem.read_item(180).unwrap();
    let read_c = mem.read_item(28).unwrap();

    assert_eq!(read_a.as_slice()[..a.len()], a);
    assert_eq!(read_b.as_slice()[..b.len()], b);
    assert_eq!(read_c.as_slice()[..c.len()], c);
}

#[test]
fn test_free() {
    let mut mem = Box::new(TestMemory::new());

    let a: [u8; 42] = [42; 42];
    let b: [u8; 69] = [69; 69];
    let c: [u8; 137] = [137; 137];
    let d: [u8; 255] = [255; 255];

    assert!(mem.try_alloc_item(0, a.len()).is_ok());
    assert!(mem.try_alloc_item(1, b.len()).is_ok());
    assert!(mem.try_alloc_item(2, c.len()).is_ok());

    assert!(mem.try_write_item(0, &a).is_ok());
    assert!(mem.try_write_item(1, &b).is_ok());
    assert!(mem.try_write_item(2, &c).is_ok());

    assert!(mem.try_free_item(1).is_ok());
    assert!(mem.try_alloc_item(1, d.len()).is_ok());
    assert!(mem.try_write_item(1, &d).is_ok());

    let read_a = mem.read_item(0).unwrap();
    let read_b = mem.read_item(1).unwrap();
    let read_c = mem.read_item(2).unwrap();

    assert_eq!(read_a.as_slice()[..a.len()], a);
    assert_eq!(read_b.as_slice()[..d.len()], d);
    assert_eq!(read_c.as_slice()[..c.len()], c);
}

#[test]
fn paged_free_returns_pages_to_their_sector() {
    let mut mem = Box::new(PagedAllocator::<20, 1, 10, 8>::new());
    assert!(mem.try_alloc_item(0, 20).is_ok());
    assert_eq!(mem.items[0].sector, 0);
    assert_eq!(mem.sectors[0].get_num_empty(), 7);
    assert!(mem.try_alloc_item(1, 72).is_err());
    assert!(mem.try_free_item(0).is_ok());
    assert_eq!(mem.sectors[0].get_num_empty(), 10);
    assert!(mem.try_alloc_item(1, 72).is_ok());
    assert_eq!(mem.sectors[0].get_num_empty(), 1);
}
