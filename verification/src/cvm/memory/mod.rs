pub mod allocator;
pub mod page;
pub mod paged;
pub mod paged_item;
pub mod sector;
pub mod simple;
