//! Paged memory: items live in chains of fixed-size pages spread over
//! sectors; a table maps each item index to its chain.
use vstd::prelude::*;
use crate::error::ProgramError;
use super::allocator::MemoryAllocator;
use super::page::{lemma_pages_cover, lemma_pages_needed, pages_needed, Page};
use super::paged_item::PagedItem;
use super::simple::overwrite;
use super::sector::{chain, lemma_chain_frame, lemma_chain_shape, Sector};

verus! {

/// Byte `x` of the pages `c`, read in order.
pub open spec fn page_byte<const PS: usize>(pages: Seq<Page<PS>>, c: Seq<u8>, x: int) -> u8 {
    pages[c[x / (PS as int)] as int].data@[x % (PS as int)]
}

/// The bytes of the pages `c`, one after another.
pub open spec fn chain_bytes<const PS: usize>(pages: Seq<Page<PS>>, c: Seq<u8>) -> Seq<u8> {
    Seq::new(c.len() * (PS as nat), |x: int| page_byte(pages, c, x))
}

/// `x` lies in page `k` at offset `o`.
pub proof fn lemma_page_position(x: int, ps: int, k: int)
    requires
        ps > 0,
        k * ps <= x < k * ps + ps,
    ensures
        x / ps == k,
        x % ps == x - k * ps,
{
    vstd::arithmetic::div_mod::lemma_fundamental_div_mod_converse(x, ps, k, x - k * ps);
}

pub proof fn lemma_page_bounds(x: int, ps: int, n: int)
    requires
        ps > 0,
        0 <= x < n * ps,
    ensures
        0 <= x / ps < n,
        0 <= x % ps < ps,
        (x / ps) * ps <= x < (x / ps) * ps + ps,
{
    let q = x / ps;
    vstd::arithmetic::div_mod::lemma_fundamental_div_mod(x, ps);
    vstd::arithmetic::div_mod::lemma_mod_bound(x, ps);
    vstd::arithmetic::div_mod::lemma_div_pos_is_pos(x, ps);
    assert(q * ps == ps * q) by (nonlinear_arith);
    if q >= n {
        assert(q * ps >= n * ps) by (nonlinear_arith)
            requires
                q >= n,
                ps > 0,
        ;
    }
}

/// The bytes of a run of pages depend only on those pages' data.
pub proof fn lemma_chain_bytes_frame<const PS: usize>(a: Seq<Page<PS>>, b: Seq<Page<PS>>, c: Seq<u8>)
    requires
        PS > 0,
        forall|k: int| 0 <= k < c.len() ==> (#[trigger] c[k]) < a.len() && c[k] < b.len()
            && a[c[k] as int].data == b[c[k] as int].data,
    ensures
        chain_bytes(a, c) == chain_bytes(b, c),
{
    assert forall|x: int| 0 <= x < c.len() * PS implies #[trigger] page_byte(a, c, x) == page_byte(b, c, x) by {
        lemma_page_bounds(x, PS as int, c.len() as int);
    }
    assert(chain_bytes(a, c) =~= chain_bytes(b, c));
}

#[derive(Clone, Copy, Debug)]
pub struct PagedAllocator<const CAPACITY: usize, const SECTORS: usize, const PAGES: usize, const PAGE_SIZE: usize> {
    pub items: [PagedItem<PAGE_SIZE>; CAPACITY],
    pub sectors: [Sector<PAGES, PAGE_SIZE>; SECTORS],
}

impl<const CAPACITY: usize, const SECTORS: usize, const PAGES: usize, const PAGE_SIZE: usize> PagedAllocator<
    CAPACITY,
    SECTORS,
    PAGES,
    PAGE_SIZE,
> {
    /// The pages that hold item `i`.
    pub open spec fn item_pages(&self, i: int) -> Seq<u8> {
        chain(self.sectors[self.items[i].sector as int].pages@, self.items[i].page as int)
    }

    /// The bytes of the pages that hold item `i`.
    pub open spec fn item_data(&self, i: int) -> Seq<u8> {
        chain_bytes(self.sectors[self.items[i].sector as int].pages@, self.item_pages(i))
    }

    /// What `read_item` gives for item `i`.
    pub open spec fn spec_read(&self, i: int) -> Option<Seq<u8>> {
        if self.items[i].size == 0 {
            None
        } else {
            Some(self.item_data(i))
        }
    }

    /// Pages left free in sector `s`.
    pub open spec fn num_empty(&self, s: int) -> int {
        PAGES - self.sectors[s].num_allocated
    }

    /// Item `i` is allocated and its chain is sound.
    pub open spec fn item_wf(&self, i: int) -> bool {
        let item = self.items[i];
        item.size != 0 ==> {
            &&& item.sector < SECTORS
            &&& item.page < PAGES
            &&& self.item_pages(i).len() == pages_needed(item.size as int, PAGE_SIZE as int)
            &&& forall|k: int| 0 <= k < self.item_pages(i).len() ==>
                self.sectors[item.sector as int].pages[#[trigger] self.item_pages(i)[k] as int].is_allocated
        }
    }

    /// Allocated items never share a page.
    pub open spec fn disjoint(&self) -> bool {
        forall|i: int, j: int|
            0 <= i < CAPACITY && 0 <= j < CAPACITY && i != j && self.items[i].size != 0 && self.items[j].size != 0
                && self.items[i].sector == self.items[j].sector ==> forall|p: u8|
                !(#[trigger] self.item_pages(i).contains(p) && #[trigger] self.item_pages(j).contains(p))
    }

    /// Every allocated page belongs to an allocated item: no page is lost.
    pub open spec fn owned(&self) -> bool {
        forall|s: int, p: int|
            0 <= s < SECTORS && 0 <= p < PAGES && (#[trigger] self.sectors[s].pages[p]).is_allocated ==> exists|i: int|
                0 <= i < CAPACITY && self.items[i].size != 0 && self.items[i].sector == s
                    && #[trigger] self.item_pages(i).contains(p as u8)
    }

    /// The sizes fit the page geometry, every sector is sound, every item's
    /// chain is sound, no two items share a page and every allocated page
    /// belongs to an item.
    pub open spec fn wf(&self) -> bool {
        &&& 0 < SECTORS <= 256
        &&& 0 < PAGES <= 255
        &&& PAGE_SIZE > 0
        &&& PAGES * PAGE_SIZE <= u16::MAX
        &&& CAPACITY <= u16::MAX + 1
        &&& forall|s: int| 0 <= s < SECTORS ==> (#[trigger] self.sectors[s]).wf()
        &&& forall|i: int| 0 <= i < CAPACITY ==> #[trigger] self.item_wf(i)
        &&& self.disjoint()
        &&& self.owned()
    }

    /// With no item allocated, every page of every sector is free: once all
    /// items are freed, the whole memory can be allocated again.
    pub proof fn lemma_no_items_all_free(self)
        requires
            self.wf(),
            forall|i: int| 0 <= i < CAPACITY ==> (#[trigger] self.items[i]).size == 0,
        ensures
            forall|s: int| 0 <= s < SECTORS ==> #[trigger] self.num_empty(s) == PAGES,
    {
        assert forall|s: int| 0 <= s < SECTORS implies #[trigger] self.num_empty(s) == PAGES by {
            assert(self.sectors[s].wf());
            assert forall|p: int| 0 <= p < PAGES implies !(#[trigger] self.sectors[s].pages@[p]).is_allocated by {
                if self.sectors[s].pages[p].is_allocated {
                    let i = choose|i: int|
                        0 <= i < CAPACITY && self.items[i].size != 0 && self.items[i].sector == s
                            && #[trigger] self.item_pages(i).contains(p as u8);
                    assert(self.items[i].size == 0);
                }
            }
            super::sector::lemma_none_allocated(self.sectors[s].pages@, PAGES as int);
        }
    }

    /// An allocated item keeps its pages and bytes where the pages of its
    /// chain are left as they were.
    pub proof fn lemma_item_frame(a: Self, b: Self, j: int)
        requires
            0 <= j < CAPACITY,
            0 < PAGES <= 255,
            PAGE_SIZE > 0,
            a.items[j] == b.items[j],
            a.items[j].size != 0,
            a.item_wf(j),
            a.items[j].sector < SECTORS,
            forall|k: int| 0 <= k < a.item_pages(j).len() ==> b.sectors[a.items[j].sector as int].pages[
                #[trigger] a.item_pages(j)[k] as int] == a.sectors[a.items[j].sector as int].pages[a.item_pages(j)[k] as int],
        ensures
            b.item_pages(j) == a.item_pages(j),
            b.item_data(j) == a.item_data(j),
            b.item_wf(j),
    {
        let s = a.items[j].sector as int;
        let pa = a.sectors[s].pages@;
        let pb = b.sectors[s].pages@;
        let c = a.item_pages(j);
        lemma_chain_shape(pa, a.items[j].page as int);
        lemma_chain_frame(pa, pb, a.items[j].page as int);
        lemma_chain_bytes_frame(pa, pb, c);
    }

    /// An empty memory.
    pub fn new() -> (r: Self)
        requires
            0 < SECTORS <= 256,
            0 < PAGES <= 255,
            PAGE_SIZE > 0,
            PAGES * PAGE_SIZE <= u16::MAX,
            CAPACITY <= u16::MAX + 1,
        ensures
            r.wf(),
            forall|i: int| 0 <= i < CAPACITY ==> r.spec_read(i) is None,
            forall|s: int| 0 <= s < SECTORS ==> r.num_empty(s) == PAGES,
    {
        let item = PagedItem::<PAGE_SIZE>::new();
        let sector = Sector::<PAGES, PAGE_SIZE>::new();
        PagedAllocator { items: [item; CAPACITY], sectors: [sector; SECTORS] }
    }

    /// Number of entries of the item table.
    pub fn max_items() -> (r: usize)
        ensures
            r == CAPACITY,
    {
        CAPACITY
    }

    /// Number of sectors.
    pub fn num_sectors() -> (r: usize)
        ensures
            r == SECTORS,
    {
        SECTORS
    }

    /// Number of pages in each sector.
    pub fn num_pages() -> (r: usize)
        ensures
            r == PAGES,
    {
        PAGES
    }

    /// Size of a page in bytes.
    pub fn page_size() -> (r: usize)
        ensures
            r == PAGE_SIZE,
    {
        PAGE_SIZE
    }

    pub fn calc_num_pages_needed(item_size: usize) -> (r: usize)
        requires
            PAGE_SIZE > 0,
        ensures
            r == pages_needed(item_size as int, PAGE_SIZE as int),
    {
        Page::<PAGE_SIZE>::calc_num_pages_needed(item_size)
    }

    /// The first sector with more than `count_pages` free pages.
    pub fn find_sector_for(&self, count_pages: usize) -> (r: Option<usize>)
        requires
            self.wf(),
        ensures
            match r {
                Some(s) => s < SECTORS && count_pages < self.num_empty(s as int) && forall|t: int|
                    0 <= t < s ==> count_pages >= self.num_empty(t),
                None => forall|t: int| 0 <= t < SECTORS ==> count_pages >= self.num_empty(t),
            },
    {
        let mut i: usize = 0;
        while i < SECTORS
            invariant
                self.wf(),
                i <= SECTORS,
                forall|t: int| 0 <= t < i ==> count_pages >= self.num_empty(t),
            decreases SECTORS - i,
        {
            assert(self.sectors[i as int].wf());
            if count_pages < self.sectors[i].get_num_empty() as usize {
                return Some(i);
            }
            i = i + 1;
        }
        None
    }

    /// Whether some sector can take an item of `item_size` bytes.
    pub fn has_room_for(&self, item_size: usize) -> (r: bool)
        requires
            self.wf(),
        ensures
            r == exists|s: int| 0 <= s < SECTORS && pages_needed(item_size as int, PAGE_SIZE as int) < self.num_empty(s),
    {
        let count_pages = Self::calc_num_pages_needed(item_size);
        match self.find_sector_for(count_pages) {
            Some(s) => {
                assert(0 <= s < SECTORS && count_pages < self.num_empty(s as int));
                true
            },
            None => false,
        }
    }

    /// The table entry of item `item_index`, where it is allocated.
    pub fn get_item_info(&self, item_index: u16) -> (r: Option<PagedItem<PAGE_SIZE>>)
        requires
            item_index < CAPACITY,
        ensures
            self.items[item_index as int].size != 0 ==> r == Some(self.items[item_index as int]),
            self.items[item_index as int].size == 0 ==> r is None,
    {
        let item = self.items[item_index as usize];
        match item.is_allocated() {
            true => Some(item),
            false => None,
        }
    }

    pub fn is_empty(&self, index: u16) -> (r: bool)
        requires
            index < CAPACITY,
        ensures
            r == (self.items[index as int].size == 0),
    {
        match self.get_item_info(index) {
            Some(_) => false,
            None => true,
        }
    }

    pub fn has_item(&self, index: u16) -> (r: bool)
        requires
            index < CAPACITY,
        ensures
            r == (self.items[index as int].size != 0),
    {
        match self.get_item_info(index) {
            Some(_) => true,
            None => false,
        }
    }

    /// The bytes of every page of item `item_index`, where it is allocated.
    pub fn read_item(&self, item_index: u16) -> (r: Option<Vec<u8>>)
        requires
            self.wf(),
            item_index < CAPACITY,
        ensures
            match r {
                Some(v) => self.spec_read(item_index as int) == Some(v@),
                None => self.spec_read(item_index as int) is None,
            },
    {
        let item = self.items[item_index as usize];
        if item.is_empty() {
            return None;
        }
        assert(self.item_wf(item_index as int));
        let sector = &self.sectors[item.sector as usize];
        assert(sector.wf());
        let pages = sector.get_linked_pages(item.page);
        let ghost c = pages@;
        proof {
            lemma_chain_shape(sector.pages@, item.page as int);
        }
        let mut data: Vec<u8> = Vec::new();
        let mut k: usize = 0;
        while k < pages.len()
            invariant
                pages@ == c,
                c == self.item_pages(item_index as int),
                *sector == self.sectors[item.sector as int],
                forall|m: int| 0 <= m < c.len() ==> (#[trigger] c[m]) < PAGES,
                PAGE_SIZE > 0,
                k <= c.len(),
                data@ =~= Seq::new((k * PAGE_SIZE) as nat, |x: int| page_byte(sector.pages@, c, x)),
            decreases c.len() - k,
        {
            let page_index = pages[k];
            let page = &sector.pages[page_index as usize];
            let ghost before = data@;
            let mut b: usize = 0;
            while b < PAGE_SIZE
                invariant
                    0 <= k < c.len(),
                    page_index == c[k as int],
                    *page == sector.pages@[page_index as int],
                    PAGE_SIZE > 0,
                    b <= PAGE_SIZE,
                    before =~= Seq::new((k * PAGE_SIZE) as nat, |x: int| page_byte(sector.pages@, c, x)),
                    data@ =~= before + page.data@.take(b as int),
                decreases PAGE_SIZE - b,
            {
                data.push(page.data[b]);
                b = b + 1;
                assert(data@ =~= before + page.data@.take(b as int));
            }
            proof {
                assert((k + 1) * PAGE_SIZE == k * PAGE_SIZE + PAGE_SIZE) by (nonlinear_arith);
                assert forall|x: int| 0 <= x < (k + 1) * PAGE_SIZE implies #[trigger] data@[x] == page_byte(
                    sector.pages@,
                    c,
                    x,
                ) by {
                    if x >= k * PAGE_SIZE {
                        lemma_page_position(x, PAGE_SIZE as int, k as int);
                    }
                }
                assert((k + 1) * PAGE_SIZE == k * PAGE_SIZE + PAGE_SIZE) by (nonlinear_arith);
            }
            k = k + 1;
        }
        Some(data)
    }

    /// Allocates item `item_index` in the first sector with more free pages
    /// than it needs; refused where the entry is already allocated or no
    /// sector has room.
    pub fn try_alloc_item(&mut self, item_index: u16, data_size: usize) -> (r: Result<(), ProgramError>)
        requires
            old(self).wf(),
            item_index < CAPACITY,
            data_size == 0 ==> old(self).items[item_index as int].size != 0 || forall|t: int|
                0 <= t < SECTORS ==> old(self).num_empty(t) <= 0,
        ensures
            final(self).wf(),
            ({
                let n = pages_needed(data_size as int, PAGE_SIZE as int);
                let room = exists|t: int| 0 <= t < SECTORS && n < old(self).num_empty(t);
                let refused = old(self).items[item_index as int].size != 0 || !room;
                &&& refused ==> r == Err::<(), ProgramError>(ProgramError::InvalidArgument)
                    && *final(self) == *old(self)
                &&& !refused ==> {
                    let item = final(self).items[item_index as int];
                    let s = item.sector as int;
                    &&& r is Ok
                    &&& item.size == data_size
                    &&& n < old(self).num_empty(s)
                    &&& forall|t: int| 0 <= t < s ==> n >= old(self).num_empty(t)
                    &&& final(self).item_pages(item_index as int) == old(self).sectors[s].empties().take(n)
                    &&& item.page == final(self).item_pages(item_index as int)[0]
                    &&& final(self).spec_read(item_index as int) == Some(
                        chain_bytes(old(self).sectors[s].pages@, final(self).item_pages(item_index as int)),
                    )
                    &&& forall|j: int| 0 <= j < CAPACITY && j != item_index ==> final(self).items[j]
                        == old(self).items[j] && #[trigger] final(self).spec_read(j) == old(self).spec_read(j)
                }
            }),
    {
        let item = self.items[item_index as usize];
        if !item.is_empty() {
            return Err(ProgramError::InvalidArgument);
        }
        let num_required = Page::<PAGE_SIZE>::calc_num_pages_needed(data_size);
        let sector_index = self.find_sector_for(num_required);
        if sector_index.is_none() {
            return Err(ProgramError::InvalidArgument);
        }
        let s = sector_index.unwrap();
        let ghost idx = item_index as int;
        let ghost before = *self;
        let mut sector = self.sectors[s];
        assert(sector.wf());
        proof {
            lemma_pages_needed(data_size as int, PAGE_SIZE as int);
            super::sector::lemma_empties(sector.pages@, PAGES as int);
            lemma_pages_cover(data_size as int, PAGE_SIZE as int, PAGES as int);
            assert(PAGES * PAGE_SIZE <= u16::MAX);
        }
        let page_index = match sector.try_alloc_pages(data_size) {
            Ok(p) => p,
            Err(e) => {
                return Err(e);
            },
        };
        let ghost run = before.sectors[s as int].empties().take(num_required as int);
        self.sectors[s] = sector;
        self.items[item_index as usize] = PagedItem { size: data_size as u16, sector: s as u8, page: page_index };
        proof {
            assert(self.sectors[s as int] == sector);
            assert(self.item_pages(idx) == run);
            assert forall|k: int| 0 <= k < run.len() implies (#[trigger] run[k]) < PAGES
                && !before.sectors[s as int].pages[run[k] as int].is_allocated by {
                assert(run[k] == before.sectors[s as int].empties()[k]);
            }
            assert forall|j: int| 0 <= j < CAPACITY && j != idx implies #[trigger] self.item_wf(j)
                && (before.items[j].size != 0 ==> self.item_pages(j) == before.item_pages(j)
                && self.item_data(j) == before.item_data(j)) by {
                assert(self.items[j] == before.items[j]);
                if before.items[j].size != 0 {
                    assert(before.item_wf(j));
                    let t = before.items[j].sector as int;
                    if t == s {
                        let cj = before.item_pages(j);
                        lemma_chain_shape(before.sectors[t].pages@, before.items[j].page as int);
                        assert forall|k: int| 0 <= k < cj.len() implies self.sectors[t].pages[
                            #[trigger] cj[k] as int] == before.sectors[t].pages[cj[k] as int] by {
                            assert(before.sectors[t].pages[cj[k] as int].is_allocated);
                            assert((cj[k] as int) as u8 == cj[k]);
                            if run.contains(cj[k]) {
                                let w = run.index_of(cj[k]);
                                assert(run[w] == cj[k]);
                            }
                        }
                    } else {
                        assert(self.sectors[t] == before.sectors[t]);
                    }
                    Self::lemma_item_frame(before, *self, j);
                }
            }
            lemma_chain_shape(sector.pages@, page_index as int);
            assert forall|k: int| 0 <= k < run.len() implies self.sectors[s as int].pages[
                #[trigger] run[k] as int].is_allocated by {
                assert(run.contains(run[k]));
                assert((run[k] as int) as u8 == run[k]);
            }
            assert(self.item_wf(idx));
            assert forall|t: int| 0 <= t < SECTORS implies (#[trigger] self.sectors[t]).wf() by {
                if t != s {
                    assert(self.sectors[t] == before.sectors[t]);
                    assert(before.sectors[t].wf());
                }
            }
            assert forall|i: int, j: int|
                0 <= i < CAPACITY && 0 <= j < CAPACITY && i != j && self.items[i].size != 0
                    && self.items[j].size != 0 && self.items[i].sector == self.items[j].sector implies forall|p: u8|
                !(#[trigger] self.item_pages(i).contains(p) && #[trigger] self.item_pages(j).contains(p)) by {
                assert(self.item_wf(i) && self.item_wf(j));
                if i == idx || j == idx {
                    let o = if i == idx { j } else { i };
                    assert(before.items[o].size != 0);
                    assert(before.item_wf(o));
                    assert(self.item_pages(o) == before.item_pages(o));
                    assert forall|p: u8| self.item_pages(o).contains(p) implies !run.contains(p) by {
                        let w = self.item_pages(o).index_of(p);
                        assert(before.sectors[s as int].pages[before.item_pages(o)[w] as int].is_allocated);
                        if run.contains(p) {
                            let v = run.index_of(p);
                            assert(run[v] == p);
                        }
                    }
                } else {
                    assert(before.items[i].size != 0 && before.items[j].size != 0);
                    assert(self.item_pages(i) == before.item_pages(i));
                    assert(self.item_pages(j) == before.item_pages(j));
                }
            }
            assert forall|j: int| 0 <= j < CAPACITY && j != idx implies self.items[j] == before.items[j]
                && #[trigger] self.spec_read(j) == before.spec_read(j) by {
                assert(self.item_wf(j));
            }
            assert forall|k: int| 0 <= k < run.len() implies (#[trigger] run[k]) < PAGES
                && self.sectors[s as int].pages[run[k] as int].data == before.sectors[s as int].pages[run[k] as int].data by {
                assert(run[k] == before.sectors[s as int].empties()[k]);
            }
            lemma_chain_bytes_frame(before.sectors[s as int].pages@, self.sectors[s as int].pages@, run);
            assert forall|t: int, p: int|
                0 <= t < SECTORS && 0 <= p < PAGES && (#[trigger] self.sectors[t].pages[p]).is_allocated implies exists|
                j: int,
            | 0 <= j < CAPACITY && self.items[j].size != 0 && self.items[j].sector == t
                && #[trigger] self.item_pages(j).contains(p as u8) by {
                if t == s && run.contains(p as u8) {
                    assert(self.item_pages(idx).contains(p as u8));
                } else {
                    if t == s {
                        assert(sector.pages[p] == self.sectors[t].pages[p]);
                    } else {
                        assert(self.sectors[t] == before.sectors[t]);
                    }
                    assert(before.sectors[t].pages[p].is_allocated);
                    let j = choose|j: int|
                        0 <= j < CAPACITY && before.items[j].size != 0 && before.items[j].sector == t
                            && #[trigger] before.item_pages(j).contains(p as u8);
                    assert(j != idx);
                    assert(self.item_wf(j));
                    assert(self.item_pages(j) == before.item_pages(j));
                    assert(self.item_pages(j).contains(p as u8));
                }
            }
        }
        Ok(())
    }

    /// Copies `data` over the front of item `item_index`, a page at a time;
    /// refused where the item is not allocated or too small for `data`.
    pub fn try_write_item(&mut self, item_index: u16, data: &[u8]) -> (r: Result<(), ProgramError>)
        requires
            old(self).wf(),
            item_index < CAPACITY,
        ensures
            final(self).wf(),
            final(self).items == old(self).items,
            ({
                let item = old(self).items[item_index as int];
                let refused = item.size == 0 || item.size < (data@.len() as u16) || pages_needed(
                    item.size as int,
                    PAGE_SIZE as int,
                ) < pages_needed(data@.len() as int, PAGE_SIZE as int);
                &&& refused ==> r == Err::<(), ProgramError>(ProgramError::InvalidArgument)
                    && *final(self) == *old(self)
                &&& !refused ==> r is Ok
                    && data@.len() <= old(self).item_data(item_index as int).len()
                    && final(self).spec_read(item_index as int) == Some(
                        overwrite(old(self).item_data(item_index as int), data@),
                    )
                    && forall|j: int| 0 <= j < CAPACITY && j != item_index ==> #[trigger] final(self).spec_read(j)
                        == old(self).spec_read(j)
            }),
    {
        let item = self.items[item_index as usize];
        if !item.is_allocated() {
            return Err(ProgramError::InvalidArgument);
        }
        let size = data.len() as u16;
        if item.size < size {
            return Err(ProgramError::InvalidArgument);
        }
        let ghost idx = item_index as int;
        let ghost before = *self;
        assert(self.item_wf(idx));
        let s = item.sector as usize;
        let mut sector = self.sectors[s];
        assert(sector.wf());
        let pages = sector.get_linked_pages(item.page);
        let ghost c = pages@;
        let ghost old_pages = sector.pages@;
        proof {
            lemma_chain_shape(sector.pages@, item.page as int);
            lemma_pages_needed(data@.len() as int, PAGE_SIZE as int);
            assert(c.len() <= PAGES);
        }
        let num_chunks = Page::<PAGE_SIZE>::calc_num_pages_needed(data.len());
        if pages.len() < num_chunks {
            return Err(ProgramError::InvalidArgument);
        }
        proof {
            assert(num_chunks < PAGES + 1);
            lemma_pages_cover(data@.len() as int, PAGE_SIZE as int, num_chunks + 1);
            assert(num_chunks * PAGE_SIZE <= PAGES * PAGE_SIZE) by (nonlinear_arith)
                requires
                    num_chunks <= PAGES,
            ;
            assert(num_chunks * PAGE_SIZE <= c.len() * PAGE_SIZE) by (nonlinear_arith)
                requires
                    num_chunks <= c.len(),
            ;
        }
        let mut i: usize = 0;
        while i < num_chunks
            invariant
                pages@ == c,
                c == before.item_pages(idx),
                old_pages == before.sectors[s as int].pages@,
                super::sector::ascending(c),
                forall|m: int| 0 <= m < c.len() ==> (#[trigger] c[m]) < PAGES,
                0 < PAGES <= 255,
                PAGE_SIZE > 0,
                PAGES * PAGE_SIZE <= u16::MAX,
                num_chunks <= c.len(),
                num_chunks * PAGE_SIZE <= PAGES * PAGE_SIZE,
                num_chunks * PAGE_SIZE <= c.len() * PAGE_SIZE,
                data@.len() <= num_chunks * PAGE_SIZE,
                data@.len() > 0 ==> (num_chunks - 1) * PAGE_SIZE < data@.len(),
                data@.len() == 0 ==> num_chunks == 0,
                i <= num_chunks,
                forall|p: int| 0 <= p < PAGES ==> {
                    let a = #[trigger] sector.pages@[p];
                    let o = old_pages[p];
                    &&& a.is_allocated == o.is_allocated
                    &&& a.next_page == o.next_page
                    &&& !c.contains(p as u8) ==> a == o
                },
                sector.num_allocated == before.sectors[s as int].num_allocated,
                forall|x: int| 0 <= x < c.len() * PAGE_SIZE ==> #[trigger] page_byte(sector.pages@, c, x) == if x
                    < i * PAGE_SIZE && x < data@.len() {
                    data@[x]
                } else {
                    page_byte(old_pages, c, x)
                },
            decreases num_chunks - i,
        {
            proof {
                assert(i * PAGE_SIZE + PAGE_SIZE <= num_chunks * PAGE_SIZE) by (nonlinear_arith)
                    requires
                        i < num_chunks,
                ;
                assert(i * PAGE_SIZE <= (num_chunks - 1) * PAGE_SIZE) by (nonlinear_arith)
                    requires
                        i <= num_chunks - 1,
                ;
            }
            let start = i * PAGE_SIZE;
            let end = if start + PAGE_SIZE <= data.len() { start + PAGE_SIZE } else { data.len() };
            let pi = pages[i] as usize;
            let mut page = sector.pages[pi];
            let ghost old_page = page;
            let mut b: usize = 0;
            while b < end - start
                invariant
                    start <= end <= data@.len(),
                    end - start <= PAGE_SIZE,
                    b <= end - start,
                    page.is_allocated == old_page.is_allocated,
                    page.next_page == old_page.next_page,
                    forall|o: int| 0 <= o < PAGE_SIZE ==> #[trigger] page.data@[o] == if o < b {
                        data@[start + o]
                    } else {
                        old_page.data@[o]
                    },
                decreases end - start - b,
            {
                page.data[b] = data[start + b];
                b = b + 1;
            }
            let ghost prev = sector.pages@;
            sector.pages[pi] = page;
            proof {
                assert(c.contains(pages@[i as int]));
                assert forall|x: int| 0 <= x < c.len() * PAGE_SIZE implies #[trigger] page_byte(
                    sector.pages@,
                    c,
                    x,
                ) == if x < (i + 1) * PAGE_SIZE && x < data@.len() {
                    data@[x]
                } else {
                    page_byte(old_pages, c, x)
                } by {
                    lemma_page_bounds(x, PAGE_SIZE as int, c.len() as int);
                    let k = x / (PAGE_SIZE as int);
                    assert((i + 1) * PAGE_SIZE == i * PAGE_SIZE + PAGE_SIZE) by (nonlinear_arith);
                    assert(page_byte(prev, c, x) == if x < i * PAGE_SIZE && x < data@.len() {
                        data@[x]
                    } else {
                        page_byte(old_pages, c, x)
                    });
                    if k == i {
                        lemma_page_position(x, PAGE_SIZE as int, i as int);
                        let o = x - i * PAGE_SIZE;
                        assert(old_page == prev[c[i as int] as int]);
                        assert(page_byte(prev, c, x) == old_page.data@[o]);
                        assert(page_byte(sector.pages@, c, x) == page.data@[o]);
                    } else {
                        assert(c[k] != c[i as int]) by {
                            if k < i {
                                assert(c[k] < c[i as int]);
                            } else {
                                assert(c[i as int] < c[k]);
                            }
                        }
                        assert(sector.pages@[c[k] as int] == prev[c[k] as int]);
                        if k < i {
                            assert(k * PAGE_SIZE + PAGE_SIZE <= i * PAGE_SIZE) by (nonlinear_arith)
                                requires
                                    k < i,
                            ;
                        } else {
                            assert((i + 1) * PAGE_SIZE <= k * PAGE_SIZE) by (nonlinear_arith)
                                requires
                                    k >= i + 1,
                            ;
                        }
                    }
                }
            }
            i = i + 1;
        }
        self.sectors[s] = sector;
        proof {
            let new_pages = sector.pages@;
            assert(self.sectors[s as int] == sector);
            assert(self.item_pages(idx) == c) by {
                lemma_chain_frame(old_pages, new_pages, item.page as int);
            }
            assert forall|p: int| 0 <= p < PAGES implies #[trigger] new_pages[p].is_allocated == old_pages[p].is_allocated
                by {
                assert(sector.pages@[p] == new_pages[p]);
            }
            assert(sector.wf()) by {
                super::sector::lemma_allocated_mono(old_pages, new_pages, PAGES as int);
                super::sector::lemma_allocated_mono(new_pages, old_pages, PAGES as int);
                assert forall|p: int| 0 <= p < PAGES implies match #[trigger] new_pages[p].next_page {
                    Some(t) => p < t < PAGES,
                    None => true,
                } by {
                    assert(new_pages[p].next_page == old_pages[p].next_page);
                    assert(match old_pages[p].next_page {
                        Some(t) => p < t < PAGES,
                        None => true,
                    });
                }
            }
            assert(self.item_data(idx) =~= overwrite(before.item_data(idx), data@)) by {
                assert(before.item_data(idx).len() == c.len() * PAGE_SIZE);
                assert(overwrite(before.item_data(idx), data@).len() == c.len() * PAGE_SIZE);
                assert forall|x: int| 0 <= x < c.len() * PAGE_SIZE implies #[trigger] self.item_data(idx)[x]
                    == overwrite(before.item_data(idx), data@)[x] by {
                    assert(self.item_data(idx)[x] == page_byte(new_pages, c, x));
                    assert(before.item_data(idx)[x] == page_byte(old_pages, c, x));
                }
            }
            assert forall|j: int| 0 <= j < CAPACITY implies #[trigger] self.item_wf(j)
                && (before.items[j].size != 0 && j != idx ==> self.item_pages(j) == before.item_pages(j)
                && self.item_data(j) == before.item_data(j)) by {
                assert(self.items[j] == before.items[j]);
                if before.items[j].size != 0 {
                    assert(before.item_wf(j));
                    let t = before.items[j].sector as int;
                    if j == idx {
                        let cj = before.item_pages(j);
                        assert forall|k: int| 0 <= k < cj.len() implies self.sectors[t].pages[
                            #[trigger] cj[k] as int].is_allocated by {
                            assert(new_pages[cj[k] as int].is_allocated == old_pages[cj[k] as int].is_allocated);
                        }
                    } else if t == s {
                        let cj = before.item_pages(j);
                        lemma_chain_shape(before.sectors[t].pages@, before.items[j].page as int);
                        assert forall|k: int| 0 <= k < cj.len() implies self.sectors[t].pages[
                            #[trigger] cj[k] as int] == before.sectors[t].pages[cj[k] as int] by {
                            assert(cj.contains(cj[k]));
                            assert((cj[k] as int) as u8 == cj[k]);
                            assert(sector.pages@[cj[k] as int] == new_pages[cj[k] as int]);
                            if c.contains(cj[k]) {
                                assert(before.item_pages(idx).contains(cj[k]) && before.item_pages(j).contains(cj[k]));
                            }
                        }
                        Self::lemma_item_frame(before, *self, j);
                    } else {
                        assert(self.sectors[t] == before.sectors[t]);
                        Self::lemma_item_frame(before, *self, j);
                    }
                }
            }
            assert forall|t: int| 0 <= t < SECTORS implies (#[trigger] self.sectors[t]).wf() by {
                if t != s {
                    assert(self.sectors[t] == before.sectors[t]);
                    assert(before.sectors[t].wf());
                }
            }
            assert forall|a: int, b: int|
                0 <= a < CAPACITY && 0 <= b < CAPACITY && a != b && self.items[a].size != 0
                    && self.items[b].size != 0 && self.items[a].sector == self.items[b].sector implies forall|p: u8|
                !(#[trigger] self.item_pages(a).contains(p) && #[trigger] self.item_pages(b).contains(p)) by {
                assert(self.item_wf(a) && self.item_wf(b));
                assert(self.item_pages(a) == before.item_pages(a));
                assert(self.item_pages(b) == before.item_pages(b));
            }
            assert forall|j: int| 0 <= j < CAPACITY && j != idx implies #[trigger] self.spec_read(j)
                == before.spec_read(j) by {
                assert(self.item_wf(j));
            }
            assert forall|t: int, p: int|
                0 <= t < SECTORS && 0 <= p < PAGES && (#[trigger] self.sectors[t].pages[p]).is_allocated implies exists|
                j: int,
            | 0 <= j < CAPACITY && self.items[j].size != 0 && self.items[j].sector == t
                && #[trigger] self.item_pages(j).contains(p as u8) by {
                if t == s {
                    assert(new_pages[p] == self.sectors[t].pages[p]);
                } else {
                    assert(self.sectors[t] == before.sectors[t]);
                }
                assert(before.sectors[t].pages[p].is_allocated);
                let j = choose|j: int|
                    0 <= j < CAPACITY && before.items[j].size != 0 && before.items[j].sector == t
                        && #[trigger] before.item_pages(j).contains(p as u8);
                assert(self.item_wf(j));
                assert(self.item_pages(j) == before.item_pages(j));
                assert(self.item_pages(j).contains(p as u8));
            }
        }
        Ok(())
    }

    /// Frees the pages of item `item_index` and clears its entry; an item
    /// that is not allocated is left alone.
    pub fn try_free_item(&mut self, item_index: u16) -> (r: Result<(), ProgramError>)
        requires
            old(self).wf(),
            item_index < CAPACITY,
        ensures
            r is Ok,
            final(self).wf(),
            final(self).spec_read(item_index as int) is None,
            final(self).items[item_index as int].size == 0,
            old(self).items[item_index as int].size == 0 ==> *final(self) == *old(self),
            forall|j: int| 0 <= j < CAPACITY && j != item_index ==> final(self).items[j] == old(self).items[j]
                && #[trigger] final(self).spec_read(j) == old(self).spec_read(j),
            old(self).items[item_index as int].size != 0 ==> {
                let s = old(self).items[item_index as int].sector as int;
                let freed = old(self).item_pages(item_index as int);
                &&& final(self).num_empty(s) == old(self).num_empty(s) + pages_needed(
                    old(self).items[item_index as int].size as int,
                    PAGE_SIZE as int,
                )
                &&& forall|k: int| 0 <= k < freed.len() ==> !final(self).sectors[s].pages[#[trigger] freed[k] as int].is_allocated
                &&& forall|p: int| 0 <= p < PAGES && !freed.contains(p as u8) ==> #[trigger] final(self).sectors[s].pages[p]
                    == old(self).sectors[s].pages[p]
                &&& forall|t: int| 0 <= t < SECTORS && t != s ==> #[trigger] final(self).sectors[t] == old(self).sectors[t]
            },
    {
        let item = self.items[item_index as usize];
        if item.is_allocated() {
            let ghost idx = item_index as int;
            assert(self.item_wf(idx));
            let s = item.sector as usize;
            let ghost c = self.item_pages(idx);
            let ghost before = *self;
            let mut sector = self.sectors[s];
            assert(sector.wf());
            proof {
                lemma_chain_shape(sector.pages@, item.page as int);
            }
            sector.free_pages(item.page);
            self.sectors[s] = sector;
            assert forall|k: int| 0 <= k < c.len() implies !self.sectors[s as int].pages[#[trigger] c[k] as int].is_allocated by {
                assert(c.contains(c[k]));
                assert((c[k] as int) as u8 == c[k]);
                let q = c[k] as int;
                assert(0 <= q < PAGES);
                assert(sector.pages[q] == self.sectors[s as int].pages[q]);
            }
            let mut cleared = item;
            cleared.clear();
            self.items[item_index as usize] = cleared;
            proof {
                assert forall|j: int| 0 <= j < CAPACITY && j != idx implies #[trigger] self.item_wf(j)
                    && (before.items[j].size != 0 ==> self.item_pages(j) == before.item_pages(j)
                    && self.item_data(j) == before.item_data(j)) by {
                    assert(self.items[j] == before.items[j]);
                    if before.items[j].size != 0 {
                        assert(before.item_wf(j));
                        let t = before.items[j].sector as int;
                        if t == s {
                            let cj = before.item_pages(j);
                            lemma_chain_shape(before.sectors[t].pages@, before.items[j].page as int);
                            assert(self.sectors[t] == sector);
                            assert forall|k: int| 0 <= k < cj.len() implies self.sectors[t].pages[
                                #[trigger] cj[k] as int] == before.sectors[t].pages[cj[k] as int] by {
                                assert(cj.contains(cj[k]));
                                assert(sector.pages[cj[k] as int] == self.sectors[t].pages[cj[k] as int]);
                                assert((cj[k] as int) as u8 == cj[k]);
                                if c.contains(cj[k]) {
                                    assert(before.item_pages(idx).contains(cj[k]) && before.item_pages(j).contains(cj[k]));
                                }
                            }
                        } else {
                            assert(self.sectors[t] == before.sectors[t]);
                        }
                        Self::lemma_item_frame(before, *self, j);
                    }
                }
                assert(self.item_wf(idx));
                assert forall|t: int| 0 <= t < SECTORS implies (#[trigger] self.sectors[t]).wf() by {
                    if t != s {
                        assert(self.sectors[t] == before.sectors[t]);
                        assert(before.sectors[t].wf());
                    }
                }
                assert forall|i: int, j: int|
                    0 <= i < CAPACITY && 0 <= j < CAPACITY && i != j && self.items[i].size != 0
                        && self.items[j].size != 0 && self.items[i].sector == self.items[j].sector implies forall|p: u8|
                    !(#[trigger] self.item_pages(i).contains(p) && #[trigger] self.item_pages(j).contains(p)) by {
                    assert(i != idx && j != idx);
                    assert(self.item_wf(i) && self.item_wf(j));
                    assert(before.items[i].size != 0 && before.items[j].size != 0);
                    assert(self.item_pages(i) == before.item_pages(i));
                    assert(self.item_pages(j) == before.item_pages(j));
                }
                assert forall|j: int| 0 <= j < CAPACITY && j != idx implies self.items[j] == before.items[j]
                    && #[trigger] self.spec_read(j) == before.spec_read(j) by {
                    assert(self.item_wf(j));
                }
                assert forall|t: int, p: int|
                    0 <= t < SECTORS && 0 <= p < PAGES && (#[trigger] self.sectors[t].pages[p]).is_allocated implies exists|
                    j: int,
                | 0 <= j < CAPACITY && self.items[j].size != 0 && self.items[j].sector == t
                    && #[trigger] self.item_pages(j).contains(p as u8) by {
                    if t == s {
                        assert(sector.pages[p] == self.sectors[t].pages[p]);
                        if c.contains(p as u8) {
                            let w = c.index_of(p as u8);
                            assert(c[w] as int == p);
                        }
                    } else {
                        assert(self.sectors[t] == before.sectors[t]);
                    }
                    assert(before.sectors[t].pages[p].is_allocated);
                    let j = choose|j: int|
                        0 <= j < CAPACITY && before.items[j].size != 0 && before.items[j].sector == t
                            && #[trigger] before.item_pages(j).contains(p as u8);
                    if j == idx {
                        let w = c.index_of(p as u8);
                        assert(c[w] as int == p);
                    }
                    assert(self.item_wf(j));
                    assert(self.item_pages(j) == before.item_pages(j));
                    assert(self.item_pages(j).contains(p as u8));
                }
            }
        }
        Ok(())
    }
}

impl<const CAPACITY: usize, const SECTORS: usize, const PAGES: usize, const PAGE_SIZE: usize> MemoryAllocator for PagedAllocator<
    CAPACITY,
    SECTORS,
    PAGES,
    PAGE_SIZE,
> {
    open spec fn inv(&self) -> bool {
        self.wf()
    }

    open spec fn num_slots(&self) -> nat {
        CAPACITY as nat
    }

    open spec fn item(&self, i: int) -> Option<Seq<u8>> {
        self.spec_read(i)
    }

    /// An empty allocation is admitted only where it would be refused.
    open spec fn alloc_admitted(&self, index: u16, size: usize) -> bool {
        size == 0 ==> self.items[index as int].size != 0 || forall|t: int| 0 <= t < SECTORS ==> self.num_empty(t) <= 0
    }

    fn is_empty(&self, index: u16) -> (r: bool) {
        PagedAllocator::<CAPACITY, SECTORS, PAGES, PAGE_SIZE>::is_empty(self, index)
    }

    fn has_item(&self, index: u16) -> (r: bool) {
        PagedAllocator::<CAPACITY, SECTORS, PAGES, PAGE_SIZE>::has_item(self, index)
    }

    fn read_item(&self, index: u16) -> (r: Option<Vec<u8>>) {
        PagedAllocator::<CAPACITY, SECTORS, PAGES, PAGE_SIZE>::read_item(self, index)
    }

    fn try_alloc_item(&mut self, index: u16, size: usize) -> (r: Result<(), ProgramError>) {
        PagedAllocator::<CAPACITY, SECTORS, PAGES, PAGE_SIZE>::try_alloc_item(self, index, size)
    }

    fn try_free_item(&mut self, index: u16) -> (r: Result<(), ProgramError>) {
        PagedAllocator::<CAPACITY, SECTORS, PAGES, PAGE_SIZE>::try_free_item(self, index)
    }

    fn try_write_item(&mut self, index: u16, data: &[u8]) -> (r: Result<(), ProgramError>) {
        PagedAllocator::<CAPACITY, SECTORS, PAGES, PAGE_SIZE>::try_write_item(self, index, data)
    }
}


} // verus!
