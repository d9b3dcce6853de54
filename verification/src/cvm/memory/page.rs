//! A fixed-size page of a memory sector, linked to the next page of the
//! same item.
use vstd::prelude::*;

verus! {

/// Where a page's successor is.
#[derive(Clone, Copy, Debug, PartialEq, Eq)]
pub enum PageReference {
    End,
    Index(u8),
}

#[derive(Clone, Copy, Debug)]
pub struct Page<const PAGE_SIZE: usize> {
    pub is_allocated: bool,
    pub data: [u8; PAGE_SIZE],
    pub next_page: Option<u8>,
}

/// Pages of `page_size` bytes needed for `size` bytes.
pub open spec fn pages_needed(size: int, page_size: int) -> int {
    (size + page_size - 1) / page_size
}

/// Division rounding up, in terms of the floor and the remainder.
pub proof fn lemma_pages_needed(s: int, p: int)
    requires
        s >= 0,
        p > 0,
    ensures
        pages_needed(s, p) == s / p + if s % p == 0 { 0int } else { 1int },
        s % p != 0 ==> s / p < s,
        0 <= s / p <= s,
        s > 0 ==> pages_needed(s, p) >= 1,
        pages_needed(s, p) <= s + 1,
        s > 0 ==> (pages_needed(s, p) - 1) * p < s,
{
    let q = s / p;
    let rm = s % p;
    vstd::arithmetic::div_mod::lemma_fundamental_div_mod(s, p);
    vstd::arithmetic::div_mod::lemma_div_pos_is_pos(s, p);
    vstd::arithmetic::div_mod::lemma_mod_bound(s, p);
    assert((q + 1) * p == q * p + p) by (nonlinear_arith);
    assert(q * p >= q) by (nonlinear_arith)
        requires
            q >= 0,
            p >= 1,
    ;
    assert((q - 1) * p == q * p - p) by (nonlinear_arith);
    assert(q == 0 ==> q * p == 0) by (nonlinear_arith);
    assert(q * p == p * q) by (nonlinear_arith);
    if rm == 0 {
        vstd::arithmetic::div_mod::lemma_fundamental_div_mod_converse(s + p - 1, p, q, p - 1);
    } else {
        vstd::arithmetic::div_mod::lemma_fundamental_div_mod_converse(s + p - 1, p, q + 1, rm - 1);
        assert(q * p >= 2 * q) by (nonlinear_arith)
            requires
                q >= 0,
                p >= 2,
        ;
    }
}

/// The pages needed for `s` bytes hold them, and no more pages than
/// `pages_below` hold fewer than `pages_below` full pages.
pub proof fn lemma_pages_cover(s: int, p: int, pages_below: int)
    requires
        s >= 0,
        p > 0,
        pages_needed(s, p) < pages_below,
    ensures
        s <= pages_needed(s, p) * p,
        s < pages_below * p,
{
    lemma_pages_needed(s, p);
    let q = s / p;
    vstd::arithmetic::div_mod::lemma_fundamental_div_mod(s, p);
    vstd::arithmetic::div_mod::lemma_mod_bound(s, p);
    let n = pages_needed(s, p);
    assert(n * p == q * p + (n - q) * p) by (nonlinear_arith);
    assert(q * p == p * q) by (nonlinear_arith);
    assert((n - q) * p >= s % p) by (nonlinear_arith)
        requires
            n - q == (if s % p == 0 { 0int } else { 1int }),
            0 <= s % p < p,
    ;
    assert(n * p < pages_below * p) by (nonlinear_arith)
        requires
            n < pages_below,
            p > 0,
    ;
}

impl<const PAGE_SIZE: usize> Page<PAGE_SIZE> {
    /// A free, zeroed page with no successor.
    pub fn new() -> (r: Self)
        ensures
            !r.is_allocated,
            r.next_page is None,
            r.data@ == Seq::new(PAGE_SIZE as nat, |_i: int| 0u8),
    {
        let r = Page { is_allocated: false, data: [0u8; PAGE_SIZE], next_page: None };
        assert(r.data@ =~= Seq::new(PAGE_SIZE as nat, |_i: int| 0u8));
        r
    }

    /// Number of pages an item of `item_size` bytes occupies.
    pub fn calc_num_pages_needed(item_size: usize) -> (r: usize)
        requires
            PAGE_SIZE > 0,
        ensures
            r == pages_needed(item_size as int, PAGE_SIZE as int),
    {
        let q = item_size / PAGE_SIZE;
        proof {
            lemma_pages_needed(item_size as int, PAGE_SIZE as int);
        }
        let r = if item_size % PAGE_SIZE == 0 { q } else { q + 1 };
        r
    }

    pub fn is_allocated(&self) -> (r: bool)
        ensures
            r == self.is_allocated,
    {
        self.is_allocated
    }

    pub fn is_empty(&self) -> (r: bool)
        ensures
            r == !self.is_allocated,
    {
        !self.is_allocated
    }

    /// Index of the successor page, if any.
    pub fn next(&self) -> (r: Option<u8>)
        ensures
            r == self.next_page,
    {
        self.next_page
    }

    pub fn allocate(&mut self)
        ensures
            final(self).is_allocated,
            final(self).next_page == old(self).next_page,
            final(self).data == old(self).data,
    {
        self.is_allocated = true;
    }

    /// Releases the page and unlinks it; its bytes stay as they are.
    pub fn free(&mut self)
        ensures
            !final(self).is_allocated,
            final(self).next_page is None,
            final(self).data == old(self).data,
    {
        self.is_allocated = false;
        self.next_page = None;
    }

    pub fn set_next_ref(&mut self, next: PageReference)
        ensures
            final(self).is_allocated == old(self).is_allocated,
            final(self).data == old(self).data,
            final(self).next_page == match next {
                PageReference::End => None,
                PageReference::Index(i) => Some(i),
            },
    {
        self.next_page = match next {
            PageReference::End => None,
            PageReference::Index(i) => Some(i),
        };
    }
}

} // verus!
