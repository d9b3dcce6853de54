use code_vm_api::cvm::memory::sector::Sector;

#[test]
fn test_sector() {
    let mut sector: Sector<4, 32> = Default::default();
    assert_eq!(sector.num_allocated, 0);
    assert_eq!(sector.get_num_empty(), 4);

    let index = sector.try_alloc_pages(32).unwrap();
    assert_eq!(sector.num_allocated, 1);
    assert_eq!(sector.get_num_empty(), 3);

    let linked = sector.get_linked_pages(index);
    assert_eq!(linked.len(), 1);
    assert_eq!(linked[0], index);

    let index2 = sector.try_alloc_pages(32).unwrap();
    assert_eq!(sector.num_allocated, 2);
    assert_eq!(sector.get_num_empty(), 2);

    let linked = sector.get_linked_pages(index2);
    assert_eq!(linked.len(), 1);
    assert_eq!(linked[0], index2);

    sector.free_pages(index);
    assert_eq!(sector.num_allocated, 1);
    assert_eq!(sector.get_num_empty(), 3);

    sector.free_pages(index2);
    assert_eq!(sector.num_allocated, 0);
    assert_eq!(sector.get_num_empty(), 4);
}

#[test]
fn test_multiple_page_allocation() {
    let mut sector: Sector<4, 32> = Default::default();
    assert_eq!(sector.num_allocated, 0);
    assert_eq!(sector.get_num_empty(), 4);

    let index = sector.try_alloc_pages(32 * 3).unwrap();
    assert_eq!(sector.num_allocated, 3);
    assert_eq!(sector.get_num_empty(), 1);

    let linked = sector.get_linked_pages(index);
    assert_eq!(linked.len(), 3);
    assert_eq!(linked[0], index);

    sector.free_pages(index);

    assert_eq!(sector.num_allocated, 0);
    assert_eq!(sector.get_num_empty(), 4);
}
