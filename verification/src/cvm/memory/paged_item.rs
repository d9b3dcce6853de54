//! Where an item of a paged memory lives: its size, sector and first page.
use vstd::prelude::*;
use super::page::{pages_needed, Page};

verus! {

#[derive(Clone, Copy, Debug)]
pub struct PagedItem<const PAGE_SIZE: usize> {
    pub size: u16,
    pub page: u8,
    pub sector: u8,
}

impl<const PAGE_SIZE: usize> PagedItem<PAGE_SIZE> {
    /// Encoded length: size, page and sector.
    pub const LEN: usize = 4;

    /// An item that holds nothing.
    pub fn new() -> (r: Self)
        ensures
            r.size == 0 && r.page == 0 && r.sector == 0,
    {
        PagedItem { size: 0, page: 0, sector: 0 }
    }

    pub fn is_empty(&self) -> (r: bool)
        ensures
            r == (self.size == 0),
    {
        self.size == 0
    }

    pub fn is_allocated(&self) -> (r: bool)
        ensures
            r == (self.size != 0),
    {
        !self.is_empty()
    }

    /// Number of pages the item occupies.
    pub fn num_pages(&self) -> (r: usize)
        requires
            PAGE_SIZE > 0,
        ensures
            r == pages_needed(self.size as int, PAGE_SIZE as int),
    {
        Page::<PAGE_SIZE>::calc_num_pages_needed(self.size as usize)
    }

    pub fn clear(&mut self)
        ensures
            final(self).size == 0 && final(self).page == 0 && final(self).sector == 0,
    {
        self.size = 0;
        self.sector = 0;
        self.page = 0;
    }
}

} // verus!
