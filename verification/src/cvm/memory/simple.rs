//! A fixed table of `N` slots of `M` bytes each.
use vstd::prelude::*;
use crate::error::ProgramError;
use super::allocator::MemoryAllocator;

verus! {

#[derive(Clone, Copy, Debug, PartialEq, Eq, Structural)]
pub enum ItemState {
    Empty,
    Allocated,
}

/// `n` zero bytes.
pub open spec fn zeros(n: nat) -> Seq<u8> {
    Seq::new(n, |_i: int| 0u8)
}

/// `data` written over the front of `old`.
pub open spec fn overwrite(old: Seq<u8>, data: Seq<u8>) -> Seq<u8> {
    data + old.skip(data.len() as int)
}

#[derive(Clone, Copy, Debug)]
pub struct SimpleAllocator<const N: usize, const M: usize> {
    pub state: [ItemState; N],
    pub data: [[u8; M]; N],
}

impl<const N: usize, const M: usize> SimpleAllocator<N, M> {
    /// Number of slots.
    pub fn capacity() -> (r: usize)
        ensures
            r == N,
    {
        N
    }

    /// Size of a slot in bytes.
    pub fn max_item_size() -> (r: usize)
        ensures
            r == M,
    {
        M
    }

    /// Slots are addressed by `u16` indices.
    pub open spec fn wf(&self) -> bool {
        N <= u16::MAX
    }

    /// Contents of slot `i`, where it is allocated.
    pub open spec fn spec_read(&self, i: int) -> Option<Seq<u8>> {
        if 0 <= i < N && self.state[i] == ItemState::Allocated {
            Some(self.data[i]@)
        } else {
            None
        }
    }

    /// A table of empty, zeroed slots.
    pub fn new() -> (r: Self)
        ensures
            forall|i: int| 0 <= i < N ==> r.state[i] == ItemState::Empty && r.data[i]@ == zeros(M as nat),
    {
        let r = SimpleAllocator { state: [ItemState::Empty; N], data: [[0u8; M]; N] };
        assert forall|i: int| 0 <= i < N implies r.state[i] == ItemState::Empty && r.data[i]@ == zeros(M as nat) by {
            assert(r.data[i]@ =~= zeros(M as nat));
        }
        r
    }

    /// `M` bytes of slot `item_index` from `offset`, where they fit.
    fn read(&self, item_index: usize, offset: usize, size: usize) -> (r: Option<Vec<u8>>)
        requires
            item_index < N,
            offset <= M,
        ensures
            offset + size > M ==> r is None,
            offset + size <= M ==> (r matches Some(v) && v@ == self.data[item_index as int]@.subrange(
                offset as int,
                offset + size,
            )),
    {
        if size > M - offset {
            return None;
        }
        let slot = &self.data[item_index];
        Some(crate::bytes::to_vec(&slot.as_slice()[offset..offset + size]))
    }

    /// Copies `data` into slot `item_index` from `offset`, where it fits.
    fn write(&mut self, item_index: usize, offset: usize, data: &[u8]) -> (r: Result<(), ProgramError>)
        requires
            item_index < N,
            offset <= M,
        ensures
            final(self).state == old(self).state,
            offset + data@.len() > M ==> r == Err::<(), ProgramError>(ProgramError::InvalidArgument)
                && final(self).data == old(self).data,
            offset + data@.len() <= M ==> r is Ok
                && final(self).data@ == old(self).data@.update(item_index as int, final(self).data[item_index as int])
                && final(self).data[item_index as int]@ == old(self).data[item_index as int]@.take(offset as int)
                    + data@ + old(self).data[item_index as int]@.skip(offset + data@.len()),
    {
        if data.len() > M - offset {
            return Err(ProgramError::InvalidArgument);
        }
        let mut slot = self.data[item_index];
        let mut k: usize = 0;
        while k < data.len()
            invariant
                offset + data@.len() <= M,
                k <= data@.len(),
                forall|j: int| 0 <= j < M && !(offset <= j < offset + k) ==> slot[j] == old(self).data[item_index as int][j],
                forall|j: int| offset <= j < offset + k ==> slot[j] == data@[j - offset],
            decreases data.len() - k,
        {
            slot[offset + k] = data[k];
            k = k + 1;
        }
        assert(slot@ =~= old(self).data[item_index as int]@.take(offset as int) + data@
            + old(self).data[item_index as int]@.skip(offset + data@.len()));
        self.data[item_index] = slot;
        assert(self.data@ =~= old(self).data@.update(item_index as int, slot));
        Ok(())
    }

    pub fn is_empty(&self, index: u16) -> (r: bool)
        requires
            index < N,
        ensures
            r == (self.state[index as int] == ItemState::Empty),
    {
        self.state[index as usize] == ItemState::Empty
    }

    pub fn has_item(&self, index: u16) -> (r: bool)
        requires
            index < N,
        ensures
            r == (self.state[index as int] == ItemState::Allocated),
    {
        self.state[index as usize] == ItemState::Allocated
    }

    /// All `M` bytes of slot `item_index`, where it is allocated.
    pub fn read_item(&self, item_index: u16) -> (r: Option<Vec<u8>>)
        requires
            self.wf(),
        ensures
            match r {
                Some(v) => self.spec_read(item_index as int) == Some(v@),
                None => self.spec_read(item_index as int) is None,
            },
    {
        if item_index >= N as u16 || self.is_empty(item_index) {
            return None;
        }
        let r = self.read(item_index as usize, 0, M);
        assert(self.data[item_index as int]@.subrange(0, M as int) =~= self.data[item_index as int]@);
        r
    }

    /// Marks slot `item_index` allocated and zeroes it; refused for an
    /// index out of range, a size over `M`, or a slot already allocated.
    pub fn try_alloc_item(&mut self, item_index: u16, data_size: usize) -> (r: Result<(), ProgramError>)
        requires
            old(self).wf(),
        ensures
            final(self).wf(),
            ({
                let refused = item_index >= N || data_size > M
                    || old(self).state[item_index as int] == ItemState::Allocated;
                &&& refused ==> r == Err::<(), ProgramError>(ProgramError::InvalidArgument) && *final(self) == *old(self)
                &&& !refused ==> r is Ok
                    && final(self).state@ == old(self).state@.update(item_index as int, ItemState::Allocated)
                    && final(self).data@ == old(self).data@.update(item_index as int, final(self).data[item_index as int])
                    && final(self).data[item_index as int]@ == zeros(M as nat)
            }),
    {
        if item_index >= N as u16 || data_size > M || self.has_item(item_index) {
            return Err(ProgramError::InvalidArgument);
        }
        self.state[item_index as usize] = ItemState::Allocated;
        let zero: [u8; M] = [0u8; M];
        self.data[item_index as usize] = zero;
        assert(zero@ =~= zeros(M as nat));
        assert(self.data@ =~= old(self).data@.update(item_index as int, zero));
        Ok(())
    }

    /// Marks slot `item_index` empty and zeroes it; refused for an index
    /// out of range or a slot already empty.
    pub fn try_free_item(&mut self, item_index: u16) -> (r: Result<(), ProgramError>)
        requires
            old(self).wf(),
        ensures
            final(self).wf(),
            ({
                let refused = item_index >= N || old(self).state[item_index as int] == ItemState::Empty;
                &&& refused ==> r == Err::<(), ProgramError>(ProgramError::InvalidArgument) && *final(self) == *old(self)
                &&& !refused ==> r is Ok
                    && final(self).state@ == old(self).state@.update(item_index as int, ItemState::Empty)
                    && final(self).data@ == old(self).data@.update(item_index as int, final(self).data[item_index as int])
                    && final(self).data[item_index as int]@ == zeros(M as nat)
            }),
    {
        if item_index >= N as u16 || self.is_empty(item_index) {
            return Err(ProgramError::InvalidArgument);
        }
        self.state[item_index as usize] = ItemState::Empty;
        let zero: [u8; M] = [0u8; M];
        self.data[item_index as usize] = zero;
        assert(zero@ =~= zeros(M as nat));
        assert(self.data@ =~= old(self).data@.update(item_index as int, zero));
        Ok(())
    }

    /// Copies `data` over the front of slot `item_index`; refused for an
    /// index out of range, an empty slot, or data longer than `M`.
    pub fn try_write_item(&mut self, item_index: u16, data: &[u8]) -> (r: Result<(), ProgramError>)
        requires
            old(self).wf(),
        ensures
            final(self).wf(),
            ({
                let refused = item_index >= N || old(self).state[item_index as int] == ItemState::Empty
                    || data@.len() > M;
                &&& refused ==> r == Err::<(), ProgramError>(ProgramError::InvalidArgument) && *final(self) == *old(self)
                &&& !refused ==> r is Ok && final(self).state == old(self).state
                    && final(self).data@ == old(self).data@.update(item_index as int, final(self).data[item_index as int])
                    && final(self).data[item_index as int]@ == overwrite(old(self).data[item_index as int]@, data@)
                &&& !refused ==> final(self).spec_read(item_index as int) == Some(
                    overwrite(old(self).spec_read(item_index as int)->0, data@),
                ) && forall|j: int| j != item_index ==> #[trigger] final(self).spec_read(j) == old(self).spec_read(j)
            }),
    {
        if item_index >= N as u16 || self.is_empty(item_index) || data.len() > M {
            return Err(ProgramError::InvalidArgument);
        }
        let r = self.write(item_index as usize, 0, data);
        assert(old(self).data[item_index as int]@.take(0) + data@ =~= data@);
        r
    }
}

impl<const N: usize, const M: usize> MemoryAllocator for SimpleAllocator<N, M> {
    open spec fn inv(&self) -> bool {
        self.wf()
    }

    open spec fn num_slots(&self) -> nat {
        N as nat
    }

    open spec fn item(&self, i: int) -> Option<Seq<u8>> {
        self.spec_read(i)
    }

    open spec fn alloc_admitted(&self, index: u16, size: usize) -> bool {
        true
    }

    fn is_empty(&self, index: u16) -> (r: bool) {
        SimpleAllocator::<N, M>::is_empty(self, index)
    }

    fn has_item(&self, index: u16) -> (r: bool) {
        SimpleAllocator::<N, M>::has_item(self, index)
    }

    fn read_item(&self, index: u16) -> (r: Option<Vec<u8>>) {
        SimpleAllocator::<N, M>::read_item(self, index)
    }

    fn try_alloc_item(&mut self, index: u16, size: usize) -> (r: Result<(), ProgramError>) {
        let r = SimpleAllocator::<N, M>::try_alloc_item(self, index, size);
        assert forall|j: int| 0 <= j < N && j != index implies #[trigger] self.spec_read(j) == old(self).spec_read(j) by {
            if r is Ok {
                assert(self.state[j] == old(self).state[j]);
                assert(self.data[j] == old(self).data[j]);
            }
        }
        r
    }

    fn try_free_item(&mut self, index: u16) -> (r: Result<(), ProgramError>) {
        let r = SimpleAllocator::<N, M>::try_free_item(self, index);
        assert forall|j: int| 0 <= j < N && j != index implies #[trigger] self.spec_read(j) == old(self).spec_read(j) by {
            if r is Ok {
                assert(self.state[j] == old(self).state[j]);
                assert(self.data[j] == old(self).data[j]);
            }
        }
        r
    }

    fn try_write_item(&mut self, index: u16, data: &[u8]) -> (r: Result<(), ProgramError>) {
        SimpleAllocator::<N, M>::try_write_item(self, index, data)
    }
}


} // verus!
