//! A table of items laid over a borrowed byte slice: `capacity` state
//! bytes, then `capacity` slots of `item_size` bytes.
use vstd::prelude::*;
use crate::cvm::memory::simple::overwrite;
use crate::error::ProgramError;

verus! {

/// State byte of a free slot.
pub const ITEM_FREE: u8 = 0;

/// State byte of a used slot.
pub const ITEM_USED: u8 = 1;

/// Byte offset of slot `i`.
pub open spec fn slot_start(i: int, item_size: int) -> int {
    i * item_size
}

/// Slot `i` lies inside a data region of `capacity` slots.
pub proof fn lemma_slot_in_bounds(i: int, capacity: int, item_size: int)
    by (nonlinear_arith)
    requires
        0 <= i < capacity,
        0 <= item_size,
    ensures
        0 <= i * item_size,
        i * item_size + item_size <= capacity * item_size,
{
}

/// Two different slots do not overlap.
proof fn lemma_slots_apart(i: int, j: int, item_size: int)
    by (nonlinear_arith)
    requires
        0 <= i,
        0 <= j,
        i != j,
        0 <= item_size,
    ensures
        j * item_size + item_size <= i * item_size || i * item_size + item_size <= j * item_size,
{
    if i < j {
        assert(i * item_size + item_size == (i + 1) * item_size);
        assert((i + 1) * item_size <= j * item_size);
    } else {
        assert(j * item_size + item_size == (j + 1) * item_size);
        assert((j + 1) * item_size <= i * item_size);
    }
}

/// Bytes needed for the state of `capacity` slots.
pub open spec fn spec_state_size(capacity: int) -> int {
    capacity
}

/// Bytes needed for the data of `capacity` slots of `max_item_size` bytes.
pub open spec fn spec_data_size(capacity: int, max_item_size: int) -> int {
    capacity * max_item_size
}

pub struct SliceAllocator<'a> {
    pub state: &'a [u8],
    pub data: &'a [u8],
    pub item_size: usize,
}

impl<'a> SliceAllocator<'a> {
    /// The data region holds every slot.
    pub open spec fn wf(&self) -> bool {
        self.state@.len() * self.item_size <= self.data@.len()
    }

    /// Contents of slot `i`, where it is not free.
    pub open spec fn spec_read(&self, i: int) -> Option<Seq<u8>> {
        if 0 <= i < self.state@.len() && self.state@[i] != ITEM_FREE {
            Some(self.data@.subrange(i * self.item_size, i * self.item_size + self.item_size))
        } else {
            None
        }
    }

    /// Lays the table over `slice`; refused where `slice` is shorter than
    /// the table.
    pub fn try_from_slice(slice: &'a [u8], capacity: usize, max_item_size: usize) -> (r: Result<Self, ProgramError>)
        requires
            capacity * max_item_size + capacity <= usize::MAX,
        ensures
            slice@.len() < capacity + capacity * max_item_size ==> r == Err::<Self, ProgramError>(ProgramError::InvalidArgument),
            slice@.len() >= capacity + capacity * max_item_size ==> (r matches Ok(a) && a.wf()
                && a.state@ == slice@.take(capacity as int)
                && a.data@ == slice@.skip(capacity as int)
                && a.item_size == max_item_size),
    {
        let state_size = Self::get_state_size(capacity);
        let data_size: usize = Self::get_data_size(capacity, max_item_size);
        if slice.len() < state_size + data_size {
            return Err(ProgramError::InvalidArgument);
        }
        let (state_bytes, data_bytes) = slice.split_at(state_size);
        Ok(SliceAllocator { state: state_bytes, data: data_bytes, item_size: max_item_size })
    }

    pub fn get_state_size(capacity: usize) -> (r: usize)
        ensures
            r == spec_state_size(capacity as int),
    {
        capacity
    }

    pub fn get_data_size(capacity: usize, max_item_size: usize) -> (r: usize)
        requires
            capacity * max_item_size <= usize::MAX,
        ensures
            r == spec_data_size(capacity as int, max_item_size as int),
    {
        capacity * max_item_size
    }

    pub fn get_size(capacity: usize, max_item_size: usize) -> (r: usize)
        requires
            capacity * max_item_size + capacity <= usize::MAX,
        ensures
            r == spec_state_size(capacity as int) + spec_data_size(capacity as int, max_item_size as int),
    {
        Self::get_state_size(capacity) + Self::get_data_size(capacity, max_item_size)
    }

    pub fn capacity(&self) -> (r: usize)
        ensures
            r == self.state@.len(),
    {
        self.state.len()
    }

    fn read(&self, item_index: usize, size: usize) -> (r: Option<&[u8]>)
        requires
            self.wf(),
        ensures
            item_index >= self.state@.len() || size > self.item_size ==> r is None,
            item_index < self.state@.len() && size <= self.item_size ==> (r matches Some(s)
                && s@ == self.data@.subrange(item_index * self.item_size, item_index * self.item_size + size)),
    {
        if item_index >= self.capacity() || size > self.item_size {
            return None;
        }
        proof {
            lemma_slot_in_bounds(item_index as int, self.state@.len() as int, self.item_size as int);
        }
        let data_len = self.data.len();
        assert(item_index * self.item_size + size <= data_len);
        let item_start = item_index * self.item_size;
        Some(&self.data[item_start..item_start + size])
    }

    pub fn is_empty(&self, index: u16) -> (r: bool)
        requires
            index < self.state@.len(),
        ensures
            r == (self.state@[index as int] == ITEM_FREE),
    {
        self.state[index as usize] == ITEM_FREE
    }

    pub fn has_item(&self, index: u16) -> (r: bool)
        requires
            index < self.state@.len(),
        ensures
            r == (self.state@[index as int] == ITEM_USED),
    {
        self.state[index as usize] == ITEM_USED
    }

    /// The bytes of slot `item_index`, where it is in range and not free.
    pub fn read_item(&self, item_index: u16) -> (r: Option<Vec<u8>>)
        requires
            self.wf(),
        ensures
            match r {
                Some(v) => self.spec_read(item_index as int) == Some(v@),
                None => self.spec_read(item_index as int) is None,
            },
    {
        if item_index as usize >= self.capacity() || self.is_empty(item_index) {
            return None;
        }
        match self.read(item_index as usize, self.item_size) {
            Some(s) => Some(crate::bytes::to_vec(s)),
            None => None,
        }
    }
}

pub struct SliceAllocatorMut<'a> {
    pub state: &'a mut [u8],
    pub data: &'a mut [u8],
    pub item_size: usize,
}

impl<'a> SliceAllocatorMut<'a> {
    /// The state bytes.
    pub open spec fn state_view(&self) -> Seq<u8> {
        self.state@
    }

    /// The data bytes.
    pub open spec fn data_view(&self) -> Seq<u8> {
        self.data@
    }

    /// The data region holds every slot.
    pub open spec fn wf(&self) -> bool {
        self.state@.len() * self.item_size <= self.data@.len()
    }

    /// Contents of slot `i`, where it is not free.
    pub open spec fn spec_read(&self, i: int) -> Option<Seq<u8>> {
        if 0 <= i < self.state@.len() && self.state@[i] != ITEM_FREE {
            Some(self.data@.subrange(i * self.item_size, i * self.item_size + self.item_size))
        } else {
            None
        }
    }

    /// Lays the table over `slice`; refused where `slice` is shorter than
    /// the table.
    pub fn try_from_slice_mut(slice: &'a mut [u8], capacity: usize, max_item_size: usize) -> (r: Result<
        Self,
        ProgramError,
    >)
        requires
            capacity * max_item_size + capacity <= usize::MAX,
        ensures
            old(slice)@.len() < capacity + capacity * max_item_size ==> r == Err::<Self, ProgramError>(
                ProgramError::InvalidArgument,
            ) && final(slice)@ == old(slice)@,
            old(slice)@.len() >= capacity + capacity * max_item_size ==> (r matches Ok(a) && a.wf()
                && a.state@ == old(slice)@.take(capacity as int)
                && a.data@ == old(slice)@.skip(capacity as int)
                && a.item_size == max_item_size
                && final(slice)@ == final(a.state)@ + final(a.data)@),
    {
        let state_size = SliceAllocator::get_state_size(capacity);
        let data_size: usize = SliceAllocator::get_data_size(capacity, max_item_size);
        if slice.len() < state_size + data_size {
            return Err(ProgramError::InvalidArgument);
        }
        let (state_bytes, data_bytes) = slice.split_at_mut(state_size);
        Ok(SliceAllocatorMut { state: state_bytes, data: data_bytes, item_size: max_item_size })
    }

    pub fn capacity(&self) -> (r: usize)
        ensures
            r == self.state_view().len(),
    {
        self.state.len()
    }

    fn read(&self, item_index: usize, size: usize) -> (r: Option<&[u8]>)
        requires
            self.wf(),
        ensures
            item_index >= self.state_view().len() || size > self.item_size ==> r is None,
            item_index < self.state_view().len() && size <= self.item_size ==> (r matches Some(s)
                && s@ == self.data_view().subrange(item_index * self.item_size, item_index * self.item_size + size)),
    {
        if item_index >= self.capacity() || size > self.item_size {
            return None;
        }
        proof {
            lemma_slot_in_bounds(item_index as int, self.state@.len() as int, self.item_size as int);
        }
        let data_len = self.data.len();
        assert(item_index * self.item_size + size <= data_len);
        let item_start = item_index * self.item_size;
        Some(&self.data[item_start..item_start + size])
    }

    fn write(&mut self, item_index: usize, data: &[u8]) -> (r: Result<(), ProgramError>)
        requires
            old(self).wf(),
        ensures
            final(self).wf(),
            final(self).state@ == old(self).state@,
            final(self).item_size == old(self).item_size,
            item_index >= old(self).state@.len() || data@.len() > old(self).item_size ==> r == Err::<
                (),
                ProgramError,
            >(ProgramError::InvalidArgument) && final(self).data@ == old(self).data@,
            item_index < old(self).state@.len() && data@.len() <= old(self).item_size ==> r is Ok
                && final(self).data@ == old(self).data@.take(item_index * old(self).item_size) + data@
                    + old(self).data@.skip(item_index * old(self).item_size + data@.len()),
    {
        if item_index >= self.capacity() || data.len() > self.item_size {
            return Err(ProgramError::InvalidArgument);
        }
        proof {
            lemma_slot_in_bounds(item_index as int, self.state@.len() as int, self.item_size as int);
        }
        let data_len = self.data.len();
        assert(item_index * self.item_size + data@.len() <= data_len);
        let item_start = item_index * self.item_size;
        let mut k: usize = 0;
        while k < data.len()
            invariant
                self.wf(),
                self.state@ == old(self).state@,
                self.item_size == old(self).item_size,
                self.data@.len() == old(self).data@.len(),
                item_start + data@.len() <= self.data@.len(),
                self.data@.len() == data_len,
                k <= data@.len(),
                self.data@ == old(self).data@.take(item_start as int) + data@.take(k as int)
                    + old(self).data@.skip(item_start + k),
            decreases data.len() - k,
        {
            self.data[item_start + k] = data[k];
            k = k + 1;
            assert(self.data@ =~= old(self).data@.take(item_start as int) + data@.take(k as int)
                + old(self).data@.skip(item_start + k));
        }
        assert(data@.take(k as int) =~= data@);
        Ok(())
    }

    pub fn is_empty(&self, index: u16) -> (r: bool)
        requires
            index < self.state_view().len(),
        ensures
            r == (self.state_view()[index as int] == ITEM_FREE),
    {
        self.state[index as usize] == ITEM_FREE
    }

    pub fn has_item(&self, index: u16) -> (r: bool)
        requires
            index < self.state_view().len(),
        ensures
            r == (self.state_view()[index as int] == ITEM_USED),
    {
        self.state[index as usize] == ITEM_USED
    }

    /// The bytes of slot `item_index`, where it is in range and not free.
    pub fn read_item(&self, item_index: u16) -> (r: Option<Vec<u8>>)
        requires
            self.wf(),
        ensures
            match r {
                Some(v) => self.spec_read(item_index as int) == Some(v@),
                None => self.spec_read(item_index as int) is None,
            },
    {
        if item_index as usize >= self.capacity() || self.is_empty(item_index) {
            return None;
        }
        match self.read(item_index as usize, self.item_size) {
            Some(s) => Some(crate::bytes::to_vec(s)),
            None => None,
        }
    }

    /// Marks slot `item_index` used, leaving its bytes as they are; refused
    /// for an index out of range, a size over the slot size, or a slot
    /// already used.
    pub fn try_alloc_item(&mut self, item_index: u16, data_size: usize) -> (r: Result<(), ProgramError>)
        requires
            old(self).wf(),
        ensures
            final(self).wf(),
            final(self).item_size == old(self).item_size,
            final(self).data@ == old(self).data@,
            ({
                let refused = item_index >= old(self).state@.len() || data_size > old(self).item_size
                    || old(self).state@[item_index as int] == ITEM_USED;
                &&& refused ==> r == Err::<(), ProgramError>(ProgramError::InvalidArgument)
                    && final(self).state@ == old(self).state@
                &&& !refused ==> r is Ok && final(self).state@ == old(self).state@.update(item_index as int, ITEM_USED)
            }),
    {
        if item_index as usize >= self.capacity() || data_size > self.item_size || self.has_item(item_index) {
            return Err(ProgramError::InvalidArgument);
        }
        self.state[item_index as usize] = ITEM_USED;
        let empty: [u8; 0] = [];
        proof {
            lemma_slot_in_bounds(item_index as int, self.state@.len() as int, self.item_size as int);
        }
        let r = self.write(item_index as usize, empty.as_slice());
        assert(self.data@ =~= old(self).data@);
        r
    }

    /// Marks slot `item_index` free, leaving its bytes as they are; refused
    /// for an index out of range or a slot already free.
    pub fn try_free_item(&mut self, item_index: u16) -> (r: Result<(), ProgramError>)
        requires
            old(self).wf(),
        ensures
            final(self).wf(),
            final(self).item_size == old(self).item_size,
            final(self).data@ == old(self).data@,
            ({
                let refused = item_index >= old(self).state@.len() || old(self).state@[item_index as int] == ITEM_FREE;
                &&& refused ==> r == Err::<(), ProgramError>(ProgramError::InvalidArgument)
                    && final(self).state@ == old(self).state@
                &&& !refused ==> r is Ok && final(self).state@ == old(self).state@.update(item_index as int, ITEM_FREE)
            }),
    {
        if item_index as usize >= self.capacity() || self.is_empty(item_index) {
            return Err(ProgramError::InvalidArgument);
        }
        self.state[item_index as usize] = ITEM_FREE;
        let empty: [u8; 0] = [];
        proof {
            lemma_slot_in_bounds(item_index as int, self.state@.len() as int, self.item_size as int);
        }
        let r = self.write(item_index as usize, empty.as_slice());
        assert(self.data@ =~= old(self).data@);
        r
    }

    /// Copies `data` over the front of slot `item_index`; refused for an
    /// index out of range, a free slot, or data longer than the slot.
    pub fn try_write_item(&mut self, item_index: u16, data: &[u8]) -> (r: Result<(), ProgramError>)
        requires
            old(self).wf(),
        ensures
            final(self).wf(),
            final(self).item_size == old(self).item_size,
            final(self).state@ == old(self).state@,
            ({
                let refused = item_index >= old(self).state@.len() || old(self).state@[item_index as int] == ITEM_FREE
                    || data@.len() > old(self).item_size;
                let start = item_index * old(self).item_size;
                &&& refused ==> r == Err::<(), ProgramError>(ProgramError::InvalidArgument)
                    && final(self).data@ == old(self).data@
                &&& !refused ==> r is Ok && final(self).data@ == old(self).data@.take(start) + data@
                    + old(self).data@.skip(start + data@.len())
                &&& !refused ==> final(self).spec_read(item_index as int) == Some(
                    overwrite(old(self).spec_read(item_index as int)->0, data@),
                ) && forall|j: int| j != item_index ==> #[trigger] final(self).spec_read(j) == old(self).spec_read(j)
            }),
    {
        if item_index as usize >= self.capacity() || self.is_empty(item_index) || data.len() > self.item_size {
            return Err(ProgramError::InvalidArgument);
        }
        let r = self.write(item_index as usize, data);
        proof {
            let s = self.item_size as int;
            let i = item_index as int;
            let n = old(self).state@.len() as int;
            let d = old(self).data@;
            lemma_slot_in_bounds(i, n, s);
            assert(self.data@.subrange(i * s, i * s + s) =~= overwrite(d.subrange(i * s, i * s + s), data@));
            assert forall|j: int| j != item_index implies #[trigger] self.spec_read(j) == old(self).spec_read(j) by {
                if 0 <= j < n && self.state@[j] != ITEM_FREE {
                    lemma_slot_in_bounds(j, n, s);
                    lemma_slots_apart(i, j, s);
                    assert(self.data@.subrange(j * s, j * s + s) =~= d.subrange(j * s, j * s + s));
                }
            }
        }
        r
    }
}

} // verus!
