//! A sector: a fixed array of pages, each item held as a chain of pages
//! linked by ascending index.
use vstd::prelude::*;
use crate::error::ProgramError;
use super::page::{pages_needed, Page, PageReference};

verus! {

/// Indices of the free pages among the first `n`, ascending.
pub open spec fn empties_upto<const PS: usize>(pages: Seq<Page<PS>>, n: int) -> Seq<u8>
    decreases n,
{
    if n <= 0 {
        Seq::empty()
    } else {
        empties_upto(pages, n - 1) + if !pages[n - 1].is_allocated {
            seq![(n - 1) as u8]
        } else {
            Seq::empty()
        }
    }
}

/// Number of allocated pages among the first `n`.
pub open spec fn allocated_upto<const PS: usize>(pages: Seq<Page<PS>>, n: int) -> nat
    decreases n,
{
    if n <= 0 {
        0
    } else {
        allocated_upto(pages, n - 1) + if pages[n - 1].is_allocated {
            1nat
        } else {
            0nat
        }
    }
}

/// The pages linked from `start`, in order.
pub open spec fn chain<const PS: usize>(pages: Seq<Page<PS>>, start: int) -> Seq<u8>
    decreases pages.len() - start,
{
    if !(0 <= start < pages.len()) {
        Seq::empty()
    } else {
        match pages[start].next_page {
            Some(j) => if start < j < pages.len() {
                seq![start as u8] + chain(pages, j as int)
            } else {
                seq![start as u8]
            },
            None => seq![start as u8],
        }
    }
}

/// Every page links only forward, and within the sector.
pub open spec fn links_forward<const PS: usize>(pages: Seq<Page<PS>>) -> bool {
    forall|i: int|
        0 <= i < pages.len() ==> match #[trigger] pages[i].next_page {
            Some(j) => i < j < pages.len(),
            None => true,
        }
}

/// Strictly ascending indices.
pub open spec fn ascending(s: Seq<u8>) -> bool {
    forall|a: int, b: int| 0 <= a < b < s.len() ==> s[a] < s[b]
}

pub proof fn lemma_empties<const PS: usize>(pages: Seq<Page<PS>>, n: int)
    requires
        0 <= n <= pages.len() <= 256,
    ensures
        empties_upto(pages, n).len() + allocated_upto(pages, n) == n,
        ascending(empties_upto(pages, n)),
        forall|k: int| 0 <= k < empties_upto(pages, n).len() ==> {
            let e = #[trigger] empties_upto(pages, n)[k];
            e < n && !pages[e as int].is_allocated
        },
        forall|m: int| 0 <= m <= n ==> empties_upto(pages, m).is_prefix_of(empties_upto(pages, n)),
    decreases n,
{
    if n > 0 {
        lemma_empties(pages, n - 1);
        let prev = empties_upto(pages, n - 1);
        let cur = empties_upto(pages, n);
        assert forall|m: int| 0 <= m <= n implies empties_upto(pages, m).is_prefix_of(cur) by {
            if m < n {
                assert(empties_upto(pages, m).is_prefix_of(prev));
                assert(prev.is_prefix_of(cur));
            }
        }
    }
}

/// A run of pages each linking to the next forms a chain from any of its
/// members to its end.
pub proof fn lemma_chain_of_run<const PS: usize>(pages: Seq<Page<PS>>, run: Seq<u8>, k: int)
    requires
        0 <= k < run.len(),
        ascending(run),
        forall|i: int| 0 <= i < run.len() ==> (#[trigger] run[i]) < pages.len(),
        forall|i: int|
            0 <= i < run.len() ==> pages[#[trigger] run[i] as int].next_page == if i + 1 < run.len() {
                Some(run[i + 1])
            } else {
                None::<u8>
            },
    ensures
        chain(pages, run[k] as int) == run.skip(k),
    decreases run.len() - k,
{
    if k + 1 < run.len() {
        lemma_chain_of_run(pages, run, k + 1);
        assert(run.skip(k) =~= seq![run[k]] + run.skip(k + 1));
    } else {
        assert(run.skip(k) =~= seq![run[k]]);
    }
}

/// A chain depends only on the links of its own pages.
pub proof fn lemma_chain_frame<const PS: usize>(a: Seq<Page<PS>>, b: Seq<Page<PS>>, start: int)
    requires
        a.len() == b.len() <= 256,
        forall|k: int| 0 <= k < chain(a, start).len() ==> a[#[trigger] chain(a, start)[k] as int].next_page
            == b[chain(a, start)[k] as int].next_page,
    ensures
        chain(b, start) == chain(a, start),
    decreases a.len() - start,
{
    if 0 <= start < a.len() {
        assert(chain(a, start)[0] == start as u8);
        assert(a[chain(a, start)[0] as int].next_page == b[chain(a, start)[0] as int].next_page);
        match a[start].next_page {
            Some(j) => {
                if start < j < a.len() {
                    let rest = chain(a, j as int);
                    assert forall|k: int| 0 <= k < rest.len() implies a[#[trigger] rest[k] as int].next_page
                        == b[rest[k] as int].next_page by {
                        assert(chain(a, start)[k + 1] == rest[k]);
                    }
                    lemma_chain_frame(a, b, j as int);
                }
            },
            None => {},
        }
    }
}

/// The pages of a chain lie within the sector, ascending, the first being
/// its start.
pub proof fn lemma_chain_shape<const PS: usize>(pages: Seq<Page<PS>>, start: int)
    requires
        0 <= start < pages.len() <= 256,
    ensures
        1 <= chain(pages, start).len() <= pages.len() - start,
        chain(pages, start)[0] == start,
        ascending(chain(pages, start)),
        forall|k: int| 0 <= k < chain(pages, start).len() ==> start <= #[trigger] chain(pages, start)[k] < pages.len(),
    decreases pages.len() - start,
{
    match pages[start].next_page {
        Some(j) => {
            if start < j < pages.len() {
                lemma_chain_shape(pages, j as int);
            }
        },
        None => {},
    }
}

#[derive(Clone, Copy, Debug)]
pub struct Sector<const NUM_PAGES: usize, const PAGE_SIZE: usize> {
    pub num_allocated: u8,
    pub pages: [Page<PAGE_SIZE>; NUM_PAGES],
}

impl<const NUM_PAGES: usize, const PAGE_SIZE: usize> Sector<NUM_PAGES, PAGE_SIZE> {
    /// The count of allocated pages is kept, and pages link forward.
    pub open spec fn wf(&self) -> bool {
        &&& 0 < NUM_PAGES <= 255
        &&& PAGE_SIZE > 0
        &&& self.num_allocated == allocated_upto(self.pages@, NUM_PAGES as int)
        &&& links_forward(self.pages@)
    }

    /// Indices of the free pages, ascending.
    pub open spec fn empties(&self) -> Seq<u8> {
        empties_upto(self.pages@, NUM_PAGES as int)
    }

    /// A sector of free pages.
    pub fn new() -> (r: Self)
        requires
            0 < NUM_PAGES <= 255,
            PAGE_SIZE > 0,
        ensures
            r.wf(),
            r.num_allocated == 0,
            forall|i: int| 0 <= i < NUM_PAGES ==> !r.pages[i].is_allocated && r.pages[i].next_page is None,
    {
        let r = Self::default();
        proof {
            lemma_no_allocated(r.pages@, NUM_PAGES as int);
        }
        r
    }

    pub fn get_num_empty(&self) -> (r: u8)
        requires
            self.wf(),
        ensures
            r == NUM_PAGES - self.num_allocated,
            r == self.empties().len(),
    {
        proof {
            lemma_empties(self.pages@, NUM_PAGES as int);
        }
        (NUM_PAGES - self.num_allocated as usize) as u8
    }

    /// The first `num_required` free pages, ascending; refused where there
    /// are fewer.
    fn try_find_empty(&self, num_required: usize) -> (r: Result<Vec<u8>, ProgramError>)
        requires
            self.wf(),
        ensures
            self.empties().len() < num_required ==> r == Err::<Vec<u8>, ProgramError>(ProgramError::InvalidArgument),
            self.empties().len() >= num_required ==> (r matches Ok(v) && v@ == self.empties().take(num_required as int)),
    {
        let mut empty: Vec<u8> = Vec::new();
        let mut i: usize = 0;
        proof {
            lemma_empties(self.pages@, NUM_PAGES as int);
        }
        while i < NUM_PAGES
            invariant
                self.wf(),
                i <= NUM_PAGES,
                empty@.len() <= num_required,
                empty@ == empties_upto(self.pages@, i as int),
                forall|m: int| 0 <= m <= NUM_PAGES ==> empties_upto(self.pages@, m).is_prefix_of(self.empties()),
            ensures
                empty@.len() == num_required || i == NUM_PAGES,
            decreases NUM_PAGES - i,
        {
            if empty.len() == num_required {
                break;
            }
            if self.pages[i].is_empty() {
                empty.push(i as u8);
            }
            i = i + 1;
            assert(empty@ =~= empties_upto(self.pages@, i as int));
        }
        if empty.len() < num_required {
            assert(i == NUM_PAGES);
            return Err(ProgramError::InvalidArgument);
        }
        assert(empty@ =~= self.empties().take(num_required as int));
        Ok(empty)
    }

    /// The pages linked from `start_index`, in order.
    pub fn get_linked_pages(&self, start_index: u8) -> (r: Vec<u8>)
        requires
            self.wf(),
            start_index < NUM_PAGES,
        ensures
            r@ == chain(self.pages@, start_index as int),
    {
        let mut linked: Vec<u8> = Vec::new();
        let mut current = start_index;
        loop
            invariant_except_break
                current < NUM_PAGES,
                linked@ + chain(self.pages@, current as int) == chain(self.pages@, start_index as int),
            invariant
                self.wf(),
            ensures
                linked@ == chain(self.pages@, start_index as int),
            decreases NUM_PAGES - current,
        {
            linked.push(current);
            let page = self.pages[current as usize];
            assert(match self.pages@[current as int].next_page {
                Some(j) => current < j < NUM_PAGES,
                None => true,
            });
            match page.next() {
                Some(next) => {
                    assert(linked@ + chain(self.pages@, next as int) =~= chain(self.pages@, start_index as int));
                    current = next;
                },
                _ => {
                    assert(linked@ =~= chain(self.pages@, start_index as int));
                    break;
                },
            }
        }
        linked
    }

    /// Allocates the first free pages, enough for `data_size` bytes, links
    /// them in ascending order and returns the first; refused where too
    /// few pages are free.
    pub fn try_alloc_pages(&mut self, data_size: usize) -> (r: Result<u8, ProgramError>)
        requires
            old(self).wf(),
            data_size > 0,
        ensures
            final(self).wf(),
            ({
                let n = pages_needed(data_size as int, PAGE_SIZE as int);
                let run = old(self).empties().take(n);
                &&& n > old(self).empties().len() ==> r == Err::<u8, ProgramError>(ProgramError::InvalidArgument)
                    && *final(self) == *old(self)
                &&& n <= old(self).empties().len() ==> (r matches Ok(h) && h == run[0]
                    && chain(final(self).pages@, h as int) == run
                    && forall|i: int| 0 <= i < NUM_PAGES ==> {
                        let p = #[trigger] final(self).pages[i];
                        let q = old(self).pages[i];
                        &&& p.data == q.data
                        &&& run.contains(i as u8) ==> p.is_allocated && !q.is_allocated
                        &&& !run.contains(i as u8) ==> p == q
                    })
            }),
    {
        let num_required = Page::<PAGE_SIZE>::calc_num_pages_needed(data_size);
        proof {
            lemma_empties(self.pages@, NUM_PAGES as int);
            super::page::lemma_pages_needed(data_size as int, PAGE_SIZE as int);
        }
        if num_required > self.get_num_empty() as usize {
            return Err(ProgramError::InvalidArgument);
        }
        let empty = self.try_find_empty(num_required)?;
        let ghost run = empty@;
        let ghost old_pages = self.pages@;
        assert(run.len() >= 1);
        let mut i: usize = 0;
        while i < num_required
            invariant
                num_required == run.len(),
                empty@ == run,
                old_pages == old(self).pages@,
                run == old(self).empties().take(num_required as int),
                ascending(run),
                forall|k: int| 0 <= k < run.len() ==> (#[trigger] run[k]) < NUM_PAGES
                    && !old_pages[run[k] as int].is_allocated,
                i <= num_required,
                0 < NUM_PAGES <= 255,
                forall|j: int| 0 <= j < NUM_PAGES ==> {
                    let p = #[trigger] self.pages@[j];
                    let q = old_pages[j];
                    &&& p.data == q.data
                    &&& (exists|k: int| 0 <= k < i && run[k] == j) ==> p.is_allocated
                        && p.next_page == (if run.index_of(j as u8) + 1 < run.len() {
                            Some(run[run.index_of(j as u8) + 1])
                        } else {
                            None::<u8>
                        })
                    &&& !(exists|k: int| 0 <= k < i && run[k] == j) ==> p == q
                },
            decreases num_required - i,
        {
            let next = if i == num_required - 1 {
                PageReference::End
            } else {
                PageReference::Index(empty[i + 1])
            };
            let idx = empty[i] as usize;
            let mut page = self.pages[idx];
            page.allocate();
            page.set_next_ref(next);
            self.pages[idx] = page;
            proof {
                assert(run.index_of(run[i as int]) == i) by {
                    lemma_index_of_ascending(run, i as int);
                }
            }
            i = i + 1;
        }
        proof {
            let ghost pages = self.pages@;
            assert forall|k: int| 0 <= k < run.len() implies pages[#[trigger] run[k] as int].next_page == if k + 1
                < run.len() {
                Some(run[k + 1])
            } else {
                None::<u8>
            } by {
                lemma_index_of_ascending(run, k);
                assert(pages[run[k] as int] == self.pages@[run[k] as int]);
            }
            lemma_chain_of_run(pages, run, 0);
            assert(run.skip(0) =~= run);
            assert forall|j: int| 0 <= j < NUM_PAGES implies match #[trigger] pages[j].next_page {
                Some(t) => j < t < NUM_PAGES,
                None => true,
            } by {
                if exists|k: int| 0 <= k < num_required && run[k] == j {
                    let k = choose|k: int| 0 <= k < num_required && run[k] == j;
                    lemma_index_of_ascending(run, k);
                } else {
                    assert(old_pages[j] == pages[j]);
                    assert(match old_pages[j].next_page {
                        Some(t) => j < t < NUM_PAGES,
                        None => true,
                    });
                }
            }
            assert forall|j: int| 0 <= j < NUM_PAGES implies #[trigger] run.contains(j as u8) == (exists|k: int|
                0 <= k < num_required && run[k] == j) by {
                if run.contains(j as u8) {
                    let k = run.index_of(j as u8);
                    assert(run[k] == j);
                }
            }
        }
        self.update_state();
        Ok(empty[0])
    }

    /// Frees every page linked from `starting_index`.
    pub fn free_pages(&mut self, starting_index: u8)
        requires
            old(self).wf(),
            starting_index < NUM_PAGES,
        ensures
            final(self).wf(),
            final(self).num_allocated <= old(self).num_allocated,
            (forall|k: int| 0 <= k < chain(old(self).pages@, starting_index as int).len() ==> old(self).pages[
                #[trigger] chain(old(self).pages@, starting_index as int)[k] as int].is_allocated)
                ==> final(self).num_allocated == old(self).num_allocated - chain(old(self).pages@, starting_index as int).len(),
            forall|i: int| 0 <= i < NUM_PAGES ==> {
                let p = #[trigger] final(self).pages[i];
                let q = old(self).pages[i];
                &&& p.data == q.data
                &&& chain(old(self).pages@, starting_index as int).contains(i as u8) ==> !p.is_allocated
                    && p.next_page is None
                &&& !chain(old(self).pages@, starting_index as int).contains(i as u8) ==> p == q
            },
    {
        let pages = self.get_linked_pages(starting_index);
        let ghost c = pages@;
        let ghost old_pages = self.pages@;
        let ghost all_allocated = forall|k: int| 0 <= k < c.len() ==> old_pages[#[trigger] c[k] as int].is_allocated;
        proof {
            lemma_chain_shape(self.pages@, starting_index as int);
        }
        let mut k: usize = 0;
        while k < pages.len()
            invariant
                pages@ == c,
                all_allocated == forall|k: int| 0 <= k < c.len() ==> old_pages[#[trigger] c[k] as int].is_allocated,
                ascending(c),
                all_allocated ==> allocated_upto(self.pages@, NUM_PAGES as int) + k == allocated_upto(
                    old_pages,
                    NUM_PAGES as int,
                ),
                c == chain(old(self).pages@, starting_index as int),
                old_pages == old(self).pages@,
                0 < NUM_PAGES <= 255,
                forall|m: int| 0 <= m < c.len() ==> (#[trigger] c[m]) < NUM_PAGES,
                k <= c.len(),
                forall|j: int| 0 <= j < NUM_PAGES ==> {
                    let p = #[trigger] self.pages@[j];
                    let q = old_pages[j];
                    &&& p.data == q.data
                    &&& c.take(k as int).contains(j as u8) ==> !p.is_allocated && p.next_page is None
                    &&& !c.take(k as int).contains(j as u8) ==> p == q
                },
            decreases c.len() - k,
        {
            let idx = pages[k] as usize;
            let ghost prev = self.pages@;
            let mut page = self.pages[idx];
            page.free();
            self.pages[idx] = page;
            proof {
                if all_allocated {
                    assert(!c.take(k as int).contains(idx as u8)) by {
                        if c.take(k as int).contains(idx as u8) {
                            let w = c.take(k as int).index_of(idx as u8);
                            assert(c[w] == c[k as int]);
                        }
                    }
                    assert(old_pages[c[k as int] as int].is_allocated);
                    lemma_allocated_flip(prev, self.pages@, idx as int, NUM_PAGES as int);
                }
                assert(c.take(k + 1) =~= c.take(k as int).push(c[k as int]));
                assert forall|j: int| 0 <= j < NUM_PAGES implies #[trigger] c.take(k + 1).contains(j as u8)
                    == (c.take(k as int).contains(j as u8) || j == idx) by {
                    if c.take(k + 1).contains(j as u8) {
                        let w = c.take(k + 1).index_of(j as u8);
                        if w < k {
                            assert(c.take(k as int)[w] == j as u8);
                        }
                    }
                    if j == idx {
                        assert(c.take(k + 1)[k as int] == j as u8);
                    }
                    if c.take(k as int).contains(j as u8) {
                        let w = c.take(k as int).index_of(j as u8);
                        assert(c.take(k + 1)[w] == j as u8);
                    }
                }
            }
            k = k + 1;
        }
        assert(c.take(k as int) =~= c);
        proof {
            lemma_allocated_mono(old_pages, self.pages@, NUM_PAGES as int);
        }
        self.update_state();
    }

    /// Recounts the allocated pages.
    fn update_state(&mut self)
        requires
            0 < NUM_PAGES <= 255,
        ensures
            final(self).pages == old(self).pages,
            final(self).num_allocated == allocated_upto(old(self).pages@, NUM_PAGES as int),
    {
        let mut count: u8 = 0;
        let mut i: usize = 0;
        while i < NUM_PAGES
            invariant
                0 < NUM_PAGES <= 255,
                i <= NUM_PAGES,
                count == allocated_upto(self.pages@, i as int),
                count <= i,
            decreases NUM_PAGES - i,
        {
            if self.pages[i].is_allocated() {
                count = count + 1;
            }
            i = i + 1;
        }
        self.num_allocated = count;
    }
}

impl<const NUM_PAGES: usize, const PAGE_SIZE: usize> Default for Sector<NUM_PAGES, PAGE_SIZE> {
    /// A sector of free, zeroed pages.
    fn default() -> (r: Self)
        ensures
            r.num_allocated == 0,
            forall|i: int| 0 <= i < NUM_PAGES ==> !r.pages[i].is_allocated && r.pages[i].next_page is None,
    {
        let page = Page::<PAGE_SIZE>::new();
        Sector { num_allocated: 0, pages: [page; NUM_PAGES] }
    }
}

/// Position of an element of an ascending sequence.
pub proof fn lemma_index_of_ascending(s: Seq<u8>, i: int)
    requires
        ascending(s),
        0 <= i < s.len(),
    ensures
        s.index_of(s[i]) == i,
{
    assert(s.contains(s[i]));
    let j = s.index_of(s[i]);
    assert(s[j] == s[i]);
}

/// Freeing pages never raises the count of allocated pages.
pub proof fn lemma_allocated_mono<const PS: usize>(a: Seq<Page<PS>>, b: Seq<Page<PS>>, n: int)
    requires
        0 <= n <= a.len(),
        n <= b.len(),
        forall|i: int| 0 <= i < n ==> (#[trigger] b[i]).is_allocated ==> a[i].is_allocated,
    ensures
        allocated_upto(b, n) <= allocated_upto(a, n),
    decreases n,
{
    if n > 0 {
        lemma_allocated_mono(a, b, n - 1);
    }
}

/// Freeing one allocated page lowers the count by one.
pub proof fn lemma_allocated_flip<const PS: usize>(a: Seq<Page<PS>>, b: Seq<Page<PS>>, idx: int, n: int)
    requires
        0 <= idx < n <= a.len(),
        n <= b.len(),
        a[idx].is_allocated,
        !b[idx].is_allocated,
        forall|i: int| 0 <= i < n && i != idx ==> (#[trigger] b[i]).is_allocated == a[i].is_allocated,
    ensures
        allocated_upto(b, n) + 1 == allocated_upto(a, n),
    decreases n,
{
    if n - 1 > idx {
        lemma_allocated_flip(a, b, idx, n - 1);
    } else {
        lemma_allocated_same(a, b, n - 1);
    }
}

/// Counts agree where the pages agree on being allocated.
pub proof fn lemma_allocated_same<const PS: usize>(a: Seq<Page<PS>>, b: Seq<Page<PS>>, n: int)
    requires
        0 <= n <= a.len(),
        n <= b.len(),
        forall|i: int| 0 <= i < n ==> (#[trigger] b[i]).is_allocated == a[i].is_allocated,
    ensures
        allocated_upto(b, n) == allocated_upto(a, n),
    decreases n,
{
    if n > 0 {
        lemma_allocated_same(a, b, n - 1);
    }
}

/// Where no page is allocated, the count is zero.
pub proof fn lemma_none_allocated<const PS: usize>(pages: Seq<Page<PS>>, n: int)
    requires
        0 <= n <= pages.len(),
        forall|i: int| 0 <= i < n ==> !(#[trigger] pages[i]).is_allocated,
    ensures
        allocated_upto(pages, n) == 0,
    decreases n,
{
    if n > 0 {
        lemma_none_allocated(pages, n - 1);
    }
}

/// No page of a fresh sector is allocated.
pub proof fn lemma_no_allocated<const PS: usize>(pages: Seq<Page<PS>>, n: int)
    requires
        0 <= n <= pages.len(),
        forall|i: int| 0 <= i < pages.len() ==> !(#[trigger] pages[i]).is_allocated && pages[i].next_page is None,
    ensures
        allocated_upto(pages, n) == 0,
        links_forward(pages),
    decreases n,
{
    if n > 0 {
        lemma_no_allocated(pages, n - 1);
    }
}

} // verus!
