//! What every memory layout offers: items addressed by index, allocated,
//! written, read back and freed.
use vstd::prelude::*;
use crate::error::ProgramError;
use super::simple::overwrite;

verus! {

/// A store of items addressed by `u16` indices.
pub trait MemoryAllocator: Sized {
    /// The store's invariant.
    spec fn inv(&self) -> bool;

    /// The number of item indices.
    spec fn num_slots(&self) -> nat;

    /// What `read_item` gives for item `i`: its bytes, where it is allocated.
    spec fn item(&self, i: int) -> Option<Seq<u8>>;

    /// Whether an allocation of `size` bytes at `index` is one the store
    /// can be asked for.
    spec fn alloc_admitted(&self, index: u16, size: usize) -> bool;

    fn is_empty(&self, index: u16) -> (r: bool)
        requires
            self.inv(),
            index < self.num_slots(),
        ensures
            r == (self.item(index as int) is None),
    ;

    fn has_item(&self, index: u16) -> (r: bool)
        requires
            self.inv(),
            index < self.num_slots(),
        ensures
            r == (self.item(index as int) is Some),
    ;

    fn read_item(&self, index: u16) -> (r: Option<Vec<u8>>)
        requires
            self.inv(),
            index < self.num_slots(),
        ensures
            match r {
                Some(v) => self.item(index as int) == Some(v@),
                None => self.item(index as int) is None,
            },
    ;

    /// Allocates item `index`; an index already in use is refused, and a
    /// refusal leaves the store as it was.
    fn try_alloc_item(&mut self, index: u16, size: usize) -> (r: Result<(), ProgramError>)
        requires
            old(self).inv(),
            index < old(self).num_slots(),
            old(self).alloc_admitted(index, size),
        ensures
            final(self).inv(),
            final(self).num_slots() == old(self).num_slots(),
            old(self).item(index as int) is Some ==> r is Err,
            r is Ok ==> final(self).item(index as int) is Some,
            r is Err ==> r == Err::<(), ProgramError>(ProgramError::InvalidArgument) && *final(self) == *old(self),
            forall|j: int| 0 <= j < old(self).num_slots() && j != index ==> #[trigger] final(self).item(j)
                == old(self).item(j),
    ;

    /// Frees item `index`; afterwards nothing is held there.
    fn try_free_item(&mut self, index: u16) -> (r: Result<(), ProgramError>)
        requires
            old(self).inv(),
            index < old(self).num_slots(),
        ensures
            final(self).inv(),
            final(self).num_slots() == old(self).num_slots(),
            final(self).item(index as int) is None,
            old(self).item(index as int) is Some ==> r is Ok,
            r is Err ==> r == Err::<(), ProgramError>(ProgramError::InvalidArgument) && *final(self) == *old(self),
            forall|j: int| 0 <= j < old(self).num_slots() && j != index ==> #[trigger] final(self).item(j)
                == old(self).item(j),
    ;

    /// Writes `data` over the front of item `index`, which must be
    /// allocated; a refusal leaves the store as it was.
    fn try_write_item(&mut self, index: u16, data: &[u8]) -> (r: Result<(), ProgramError>)
        requires
            old(self).inv(),
            index < old(self).num_slots(),
        ensures
            final(self).inv(),
            final(self).num_slots() == old(self).num_slots(),
            old(self).item(index as int) is None ==> r is Err,
            r is Err ==> r == Err::<(), ProgramError>(ProgramError::InvalidArgument) && *final(self) == *old(self),
            r is Ok ==> (old(self).item(index as int) matches Some(d) && data@.len() <= d.len()
                && final(self).item(index as int) == Some(overwrite(d, data@))),
            forall|j: int| 0 <= j < old(self).num_slots() && j != index ==> #[trigger] final(self).item(j)
                == old(self).item(j),
    ;
}

} // verus!
