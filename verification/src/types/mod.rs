use vstd::prelude::*;

pub mod circular_buffer;
pub mod hash;
pub mod merkle_append;
pub mod merkle_tree;
pub mod signature;
pub mod slice_allocator;

pub use circular_buffer::CircularBuffer;
pub use merkle_tree::MerkleTree;
pub use slice_allocator::{SliceAllocator, SliceAllocatorMut};

verus! {

/// A 32-byte account address.
pub type Pubkey = [u8; 32];

} // verus!
