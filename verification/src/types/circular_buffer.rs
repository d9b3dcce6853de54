use vstd::prelude::*;
use crate::bytes::bytes_eq;
use crate::codec::{arrays_bytes, copy_array, lemma_array_ext, lemma_flatten32, lemma_vec32_unique, read_arrays32, write_arrays32, write_bytes};

verus! {

/// `item` zero-padded on the right to `m` bytes.
pub open spec fn padded(item: Seq<u8>, m: nat) -> Seq<u8> {
    item + Seq::new((m - item.len()) as nat, |_i: int| 0u8)
}

/// Reduction of a value below twice the modulus.
pub proof fn lemma_mod_once(x: int, n: int)
    requires
        n > 0,
        0 <= x < 2 * n,
    ensures
        x % n == if x < n { x } else { x - n },
{
    if x < n {
        vstd::arithmetic::div_mod::lemma_small_mod(x as nat, n as nat);
    } else {
        vstd::arithmetic::div_mod::lemma_small_mod((x - n) as nat, n as nat);
        vstd::arithmetic::div_mod::lemma_mod_sub_multiples_vanish(x, n);
    }
}

/// A ring of `N` fixed-size slots of `M` bytes. Once `N` items have been
/// pushed, every further push overwrites the oldest item.
#[derive(Clone, Copy, Debug)]
pub struct CircularBuffer<const N: usize, const M: usize> {
    pub items: [[u8; M]; N],
    pub offset: u8,
    pub num_items: u8,
    pub _padding: [u8; 6],
}

impl<const N: usize, const M: usize> CircularBuffer<N, M> {
    /// The buffer's invariant: the ring is addressable with `u8` indices,
    /// its offset and count lie within it, and the oldest item only moves
    /// away from slot 0 once the ring is full.
    pub open spec fn wf(&self) -> bool {
        &&& 0 < N <= 255
        &&& self.num_items <= N
        &&& self.offset < N
        &&& (self.num_items < N ==> self.offset == 0)
    }

    /// Slot of the `i`-th oldest item.
    pub open spec fn slot(&self, i: int) -> int {
        (self.offset + i) % (N as int)
    }

    /// The items held, oldest first.
    pub open spec fn view(&self) -> Seq<[u8; M]> {
        Seq::new(self.num_items as nat, |i: int| self.items[self.slot(i)])
    }

    pub fn new() -> (r: Self)
        ensures
            r.offset == 0,
            r.num_items == 0,
            r.view() == Seq::<[u8; M]>::empty(),
            forall|i: int| 0 <= i < N ==> r.items[i]@ == Seq::new(M as nat, |_j: int| 0u8),
    {
        let zero: [u8; M] = [0u8; M];
        let r = CircularBuffer { items: [zero; N], offset: 0, num_items: 0, _padding: [0u8; 6] };
        assert forall|i: int| 0 <= i < N implies r.items[i]@ == Seq::new(M as nat, |_j: int| 0u8) by {
            assert(r.items[i] == zero);
            assert(zero@ =~= Seq::new(M as nat, |_j: int| 0u8));
        }
        assert(r.view() =~= Seq::<[u8; M]>::empty());
        r
    }

    pub fn capacity(&self) -> (r: usize)
        ensures
            r == N,
    {
        N
    }

    pub fn is_empty(&self) -> (r: bool)
        ensures
            r == (self.num_items == 0),
    {
        self.num_items == 0
    }

    /// Position (0 = oldest) of the first held item equal to `item`.
    pub fn find_index(&self, item: &[u8]) -> (r: Option<usize>)
        requires
            0 < N,
        ensures
            match r {
                Some(i) => i < self.view().len() && self.view()[i as int]@ == item@
                    && forall|j: int| 0 <= j < i ==> self.view()[j]@ != item@,
                None => forall|j: int| 0 <= j < self.view().len() ==> self.view()[j]@ != item@,
            },
    {
        let n: usize = self.num_items as usize;
        let mut i: usize = 0;
        while i < n
            invariant
                0 < N,
                n == self.num_items,
                i <= n,
                forall|j: int| 0 <= j < i ==> self.view()[j]@ != item@,
            decreases n - i,
        {
            let idx = (self.offset as usize + i) % N;
            if bytes_eq(self.items[idx].as_slice(), item) {
                return Some(i);
            }
            i = i + 1;
        }
        None
    }

    pub fn contains(&self, item: &[u8]) -> (r: bool)
        requires
            0 < N,
        ensures
            r == exists|j: int| 0 <= j < self.view().len() && self.view()[j]@ == item@,
    {
        match self.find_index(item) {
            Some(i) => {
                assert(self.view()[i as int]@ == item@);
                true
            },
            None => false,
        }
    }

    /// The layout after pushing `item`: written zero-padded into the slot
    /// after the newest item (the oldest one's, when the ring is full),
    /// every other slot and the padding kept.
    pub open spec fn pushed(self, after: Self, item: Seq<u8>) -> bool {
        let slot = if self.num_items < N { self.num_items as int } else { self.offset as int };
        &&& after._padding == self._padding
        &&& after.items[slot]@ == padded(item, M as nat)
        &&& forall|j: int| 0 <= j < N && j != slot ==> #[trigger] after.items[j] == self.items[j]
        &&& self.num_items < N ==> after.num_items == self.num_items + 1 && after.offset == self.offset
        &&& self.num_items == N ==> after.num_items == N && after.offset == (self.offset + 1) % (N as int)
    }

    /// Appends `item`, zero-padded to `M` bytes; when the buffer is full the
    /// oldest item is dropped.
    pub fn push(&mut self, item: &[u8])
        requires
            old(self).wf(),
            item.len() <= M,
        ensures
            final(self).wf(),
            old(self).num_items < N ==> final(self).view().len() == old(self).view().len() + 1
                && final(self).view().drop_last() == old(self).view(),
            old(self).num_items == N ==> final(self).view().len() == N
                && final(self).view().drop_last() == old(self).view().drop_first(),
            final(self).view().last()@ == padded(item@, M as nat),
            old(self).pushed(*final(self), item@),
    {
        let mut buffer: [u8; M] = [0u8; M];
        let mut k: usize = 0;
        while k < item.len()
            invariant
                item.len() <= M,
                k <= item.len(),
                forall|j: int| 0 <= j < k ==> buffer[j] == item@[j],
                forall|j: int| k <= j < M ==> buffer[j] == 0u8,
            decreases item.len() - k,
        {
            buffer[k] = item[k];
            k = k + 1;
        }
        assert(buffer@ =~= padded(item@, M as nat));
        let ghost old_view = self.view();
        if (self.num_items as usize) < N {
            let idx = self.num_items as usize;
            self.items[idx] = buffer;
            self.num_items = self.num_items + 1;
            assert forall|j: int| 0 <= j < self.num_items implies self.slot(j) == j by {
                lemma_mod_once(j, N as int);
            }
            assert(self.view().drop_last() =~= old_view);
        } else {
            let idx = self.offset as usize;
            self.items[idx] = buffer;
            self.offset = ((self.offset as usize + 1) % N) as u8;
            assert forall|j: int| 0 <= j < N implies self.slot(j) == old(self).slot(j + 1) by {
                lemma_mod_once(old(self).offset + 1, N as int);
                lemma_mod_once(self.offset + j, N as int);
                lemma_mod_once(old(self).offset + j + 1, N as int);
            }
            assert(old(self).slot(N as int) == idx) by {
                lemma_mod_once(old(self).offset + N, N as int);
            }
            assert forall|j: int| 0 <= j < N - 1 implies #[trigger] self.view()[j] == old_view[j + 1] by {
                lemma_mod_once(old(self).offset + j + 1, N as int);
            }
            assert(self.view().drop_last() =~= old_view.drop_first());
        }
    }

    /// The held items, oldest first.
    pub fn unroll(&self) -> (r: Vec<[u8; M]>)
        requires
            0 < N,
        ensures
            r@ == self.view(),
    {
        let mut list: Vec<[u8; M]> = Vec::new();
        let mut i: u8 = 0;
        while i < self.num_items
            invariant
                0 < N,
                i <= self.num_items,
                list@ == self.view().take(i as int),
            decreases self.num_items - i,
        {
            list.push(self.items[(self.offset as usize + i as usize) % N]);
            i = i + 1;
            assert(list@ =~= self.view().take(i as int));
        }
        assert(self.view().take(i as int) =~= self.view());
        list
    }

    /// The oldest held item.
    pub fn first(&self) -> (r: Option<&[u8; M]>)
        requires
            0 < N,
            self.offset < N,
        ensures
            self.view().len() == 0 ==> r is None,
            self.view().len() > 0 ==> r == Some(&self.view()[0]),
    {
        if self.is_empty() {
            return None;
        }
        proof {
            lemma_mod_once(self.offset as int, N as int);
        }
        Some(&self.items[self.offset as usize])
    }

    /// The newest held item.
    pub fn last(&self) -> (r: Option<&[u8; M]>)
        requires
            self.wf(),
        ensures
            self.view().len() == 0 ==> r is None,
            self.view().len() > 0 ==> r == Some(&self.view().last()),
    {
        if self.is_empty() {
            return None;
        }
        let index: u8 = if (self.num_items as usize) < N {
            self.num_items - 1
        } else if self.offset == 0 {
            (N - 1) as u8
        } else {
            self.offset - 1
        };
        assert(self.slot(self.num_items - 1) == index) by {
            lemma_mod_once(self.offset + self.num_items - 1, N as int);
        }
        Some(&self.items[index as usize])
    }

    /// The `index`-th oldest held item.
    pub fn get(&self, index: usize) -> (r: Option<&[u8; M]>)
        requires
            0 < N,
        ensures
            index < self.view().len() ==> r == Some(&self.view()[index as int]),
            index >= self.view().len() ==> r is None,
    {
        if index < self.num_items as usize {
            let actual_index = (self.offset as usize + index) % N;
            Some(&self.items[actual_index])
        } else {
            None
        }
    }
}


impl<const N: usize> CircularBuffer<N, 32> {
    /// The ring as laid out in account data: the slots, the offset and
    /// count, then six bytes of padding.
    pub open spec fn spec_bytes(self) -> Seq<u8> {
        arrays_bytes(self.items@) + seq![self.offset, self.num_items] + self._padding@
    }

    /// Where each field lies in the encoding: slot `i` in bytes `32 * i` up to
    /// `32 * i + 32`, then the offset and the count in the two bytes after the
    /// slots, then the six bytes of padding.
    pub proof fn lemma_field_offsets(self)
        ensures
            self.spec_bytes().len() == 32 * N + 8,
            forall|i: int| 0 <= i < N ==> #[trigger] self.spec_bytes().subrange(32 * i, 32 * i + 32) == self.items[i]@,
            self.spec_bytes()[32 * N] == self.offset,
            self.spec_bytes()[32 * N + 1] == self.num_items,
            self.spec_bytes().subrange(32 * N + 2, 32 * N + 8) == self._padding@,
    {
        lemma_flatten32(self.items@);
        let b = self.spec_bytes();
        let a = arrays_bytes(self.items@);
        assert forall|i: int| 0 <= i < N implies #[trigger] b.subrange(32 * i, 32 * i + 32) == self.items[i]@ by {
            assert(b.subrange(32 * i, 32 * i + 32) =~= a.subrange(32 * i, 32 * i + 32));
        }
        assert(b.subrange(32 * N + 2, 32 * N + 8) =~= self._padding@);
    }

    /// Appends the ring's bytes.
    pub fn pack(&self, w: &mut Vec<u8>)
        ensures
            final(w)@ == old(w)@ + self.spec_bytes(),
    {
        write_arrays32(w, self.items.as_slice());
        w.push(self.offset);
        w.push(self.num_items);
        write_bytes(w, self._padding.as_slice());
        assert(final(w)@ =~= old(w)@ + self.spec_bytes());
    }

    /// A ring is fixed by its bytes, so `unpack_at` reads back what `pack`
    /// wrote.
    pub proof fn lemma_bytes_determine(self, other: Self)
        requires
            self.spec_bytes() == other.spec_bytes(),
        ensures
            self == other,
    {
        broadcast use vstd::array::axiom_array_ext_equal;
        lemma_flatten32(self.items@);
        lemma_flatten32(other.items@);
        let b = self.spec_bytes();
        let n = N as int;
        assert(arrays_bytes(self.items@) =~= b.subrange(0, 32 * n));
        assert(arrays_bytes(other.items@) =~= b.subrange(0, 32 * n));
        lemma_vec32_unique(self.items@, other.items@);
        assert(self.items =~= other.items);
        assert(b[32 * n] == self.offset && b[32 * n] == other.offset);
        assert(b[32 * n + 1] == self.num_items && b[32 * n + 1] == other.num_items);
        assert(self._padding@ =~= b.subrange(32 * n + 2, 32 * n + 8));
        assert(other._padding@ =~= b.subrange(32 * n + 2, 32 * n + 8));
        lemma_array_ext(self._padding, other._padding);
    }

    /// Reads a ring laid out at `pos`.
    pub fn unpack_at(data: &[u8], pos: usize) -> (r: Self)
        requires
            pos + 32 * N + 8 <= data@.len(),
        ensures
            r.spec_bytes() == data@.subrange(pos as int, pos + 32 * N + 8),
    {
        assert(data@.len() == data.len());
        let items = read_arrays32::<N>(data, pos);
        let at = pos + 32 * N;
        let offset = data[at];
        let num_items = data[at + 1];
        let _padding = copy_array::<6>(data, at + 2);
        let r = CircularBuffer { items, offset, num_items, _padding };
        assert(r.spec_bytes() =~= data@.subrange(pos as int, pos + 32 * N + 8));
        r
    }
}


/// The bytes of a ring of `N` slots of 32 bytes.
pub proof fn lemma_ring_len<const N: usize>(ring: CircularBuffer<N, 32>)
    ensures
        ring.spec_bytes().len() == 32 * N + 8,
{
    lemma_flatten32(ring.items@);
}

} // verus!
