use code_vm_api::error::ProgramError;
use solana_keypair::Keypair;
use solana_signer::Signer;
use code_vm_api::types::slice_allocator::{SliceAllocator, SliceAllocatorMut};

/// Helper function to create a `SliceAllocator` for testing.
/// Returns the allocator and the backing buffer to ensure the buffer's lifetime.
fn create_allocator<'a>(
    buffer: &'a [u8],
    capacity: usize,
    item_size: usize,
) -> Result<SliceAllocator<'a>, ProgramError> {
    SliceAllocator::try_from_slice(buffer, capacity, item_size)
}

/// Helper function to create a `SliceAllocatorMut` for testing.
/// Returns the allocator and the mutable backing buffer to ensure the buffer's lifetime.
fn create_allocator_mut<'a>(
    buffer: &'a mut [u8],
    capacity: usize,
    item_size: usize,
) -> Result<SliceAllocatorMut<'a>, ProgramError> {
    SliceAllocatorMut::try_from_slice_mut(buffer, capacity, item_size)
}

#[test]
fn test_allocator_creation() {
    let capacity = 4;
    let item_size = 8;
    let total_size = SliceAllocator::get_size(capacity, item_size);
    let mut buffer = vec![0u8; total_size];

    let allocator = create_allocator(&buffer, capacity, item_size);
    assert!(allocator.is_ok());
    assert_eq!(allocator.unwrap().capacity(), capacity);

    let mut_allocator = create_allocator_mut(&mut buffer, capacity, item_size);
    assert!(mut_allocator.is_ok());
    assert_eq!(mut_allocator.unwrap().capacity(), capacity);
}

#[test]
fn test_initial_state() {
    let capacity = 4;
    let item_size = 8;
    let total_size = SliceAllocator::get_size(capacity, item_size);
    let buffer = vec![0u8; total_size];

    let allocator = create_allocator(&buffer, capacity, item_size).unwrap();
    for i in 0..capacity {
        assert!(allocator.is_empty(i as u16));
        assert!(!allocator.has_item(i as u16));
    }
}

#[test]
fn test_alloc_and_free_item() {
    let capacity = 4;
    let item_size = 8;
    let total_size = SliceAllocator::get_size(capacity, item_size);
    let mut buffer = vec![0u8; total_size];

    let mut allocator = create_allocator_mut(&mut buffer, capacity, item_size).unwrap();

    assert!(allocator.try_alloc_item(1, item_size).is_ok());
    assert!(!allocator.is_empty(1));
    assert!(allocator.has_item(1));

    assert!(allocator.try_free_item(1).is_ok());
    assert!(allocator.is_empty(1));
    assert!(!allocator.has_item(1));
}

#[test]
fn test_write_and_read_item() {
    let capacity = 4;
    let item_size = 8;
    let total_size = SliceAllocator::get_size(capacity, item_size);
    let mut buffer = vec![0u8; total_size];
    let data = vec![1, 2, 3, 4, 5, 6, 7, 8];

    let mut allocator = create_allocator_mut(&mut buffer, capacity, item_size).unwrap();

    assert!(allocator.try_alloc_item(2, data.len()).is_ok());
    assert!(allocator.try_write_item(2, &data).is_ok());

    let read_data = allocator.read_item(2);
    assert!(read_data.is_some());
    assert_eq!(read_data.unwrap(), data);
}

#[test]
fn test_invalid_operations() {
    let capacity = 4;
    let item_size = 8;
    let total_size = SliceAllocator::get_size(capacity, item_size);
    let mut buffer = vec![0u8; total_size];

    let mut allocator = create_allocator_mut(&mut buffer, capacity, item_size).unwrap();

    // Invalid allocation: Out of bounds
    assert!(allocator.try_alloc_item(5, item_size).is_err());

    // Invalid allocation: Already allocated
    assert!(allocator.try_alloc_item(1, item_size).is_ok());
    assert!(allocator.try_alloc_item(1, item_size).is_err());

    // Invalid allocation: Exceeds item size
    assert!(allocator.try_alloc_item(2, item_size + 1).is_err());

    // Invalid write: Item not allocated
    assert!(allocator.try_write_item(0, &[1, 2, 3]).is_err());

    // Invalid write: Data exceeds item size
    let oversized_data = vec![0u8; item_size + 1];
    assert!(allocator.try_write_item(1, &oversized_data).is_err());

    // Invalid free: Not allocated
    assert!(allocator.try_free_item(3).is_err());
}

#[test]
fn test_read_invalid_item() {
    let capacity = 4;
    let item_size = 8;
    let total_size = SliceAllocator::get_size(capacity, item_size);
    let buffer = vec![0u8; total_size];

    let allocator = create_allocator(&buffer, capacity, item_size).unwrap();

    // Reading out-of-bounds index
    assert!(allocator.read_item(5).is_none());

    // Reading unallocated item
    assert!(allocator.read_item(0).is_none());
}

#[test]
fn test_large_capacity_read_write() {
    let capacity = 1000; // Large number of items
    let item_size = 77; // Each item is 77 bytes
    let total_size = SliceAllocator::get_size(capacity, item_size);
    let mut buffer = vec![0u8; total_size];

    let mut allocator = create_allocator_mut(&mut buffer, capacity, item_size).unwrap();

    // Generate some test data
    let test_data: Vec<u8> = (0..item_size as u8).collect();

    // Write data to all items in the allocator
    for i in 0..capacity {
        let index = i as u16;
        assert!(allocator.try_alloc_item(index, item_size).is_ok());
        assert!(allocator.try_write_item(index, &test_data).is_ok());
        assert!(allocator.has_item(index));
    }

    // Verify the data is correctly stored and can be read back
    for i in 0..capacity {
        let index = i as u16;
        let read_data = allocator.read_item(index);
        assert!(read_data.is_some());
        assert_eq!(read_data.unwrap(), test_data);
    }

    // Free all items
    for i in 0..capacity {
        let index = i as u16;
        assert!(allocator.try_free_item(index).is_ok());
        assert!(allocator.is_empty(index));
    }
}

#[test]
fn test_large_capacity_partial_read_write() {

    let capacity = 1000; // Large number of items
    let item_size = 77; // Each item is 77 bytes
    let total_size = SliceAllocator::get_size(capacity, item_size);
    let mut buffer = vec![0u8; total_size];

    let mut allocator = create_allocator_mut(&mut buffer, capacity, item_size).unwrap();

    // Generate some test data
    let test_data: Vec<u8> = (0..item_size as u8).collect();

    // Write data to every 10th item
    for i in (0..capacity).step_by(10) {
        let index = i as u16;
        assert!(allocator.try_alloc_item(index, item_size).is_ok());
        assert!(allocator.try_write_item(index, &test_data).is_ok());
        assert!(allocator.has_item(index));
    }

    // Verify data only exists in the written indices
    for i in 0..capacity {
        let index = i as u16;
        if i % 10 == 0 {
            let read_data = allocator.read_item(index);
            assert!(read_data.is_some());
            assert_eq!(read_data.unwrap(), test_data);
        } else {
            assert!(allocator.read_item(index).is_none());
        }
    }

    // Free every 10th item
    for i in (0..capacity).step_by(10) {
        let index = i as u16;
        assert!(allocator.try_free_item(index).is_ok());
        assert!(allocator.is_empty(index));
    }
}


#[test]
fn test_sign_verify_with_allocator() {
    let capacity = 500; // Number of items to write
    let item_size = 64; // Signature size (64 bytes)
    let total_size = SliceAllocator::get_size(capacity, item_size);
    let mut buffer = vec![0u8; total_size];

    let mut allocator = create_allocator_mut(&mut buffer, capacity, item_size).unwrap();

    // Generate a keypair for signing
    let keypair = Keypair::new();

    // Vector to track messages and their indices
    let mut messages = Vec::new();

    // Sign and write messages into the allocator
    for i in 0..capacity {
        let message = format!("test_{}", i);
        let signature = keypair.sign_message(message.as_bytes());

        let index = i as u16;
        assert!(allocator.try_alloc_item(index, item_size).is_ok());
        assert!(allocator.try_write_item(index, signature.as_ref()).is_ok());

        messages.push((index, message));
    }

    // Read and verify messages
    for (index, message) in messages {
        let read_data = allocator.read_item(index);
        assert!(read_data.is_some());

        let signature_bytes = read_data.unwrap();
        assert_eq!(signature_bytes.len(), item_size);

        // Re-sign the message and compare the signatures
        let expected_signature = keypair.sign_message(message.as_bytes());
        assert_eq!(signature_bytes, expected_signature.as_ref());
    }

    // Free all allocated items and ensure they return to an empty state
    for i in 0..capacity {
        let index = i as u16;
        assert!(allocator.try_free_item(index).is_ok());
        assert!(allocator.is_empty(index));
    }
}
