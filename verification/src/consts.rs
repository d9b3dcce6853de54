//! Seeds and sizes shared by the program and its clients.
use vstd::prelude::*;

verus! {

/// The seed `code_vm`.
pub const CODE_VM: [u8; 7] = [99, 111, 100, 101, 95, 118, 109];

/// The seed `vm_omnibus`.
pub const VM_OMNIBUS: [u8; 10] = [118, 109, 95, 111, 109, 110, 105, 98, 117, 115];

/// The seed `vm_memory_account`.
pub const VM_MEMORY_ACCOUNT: [u8; 17] = [118, 109, 95, 109, 101, 109, 111, 114, 121, 95, 97, 99, 99, 111, 117, 110, 116];

/// The seed `vm_storage_account`.
pub const VM_STORAGE_ACCOUNT: [u8; 18] = [118, 109, 95, 115, 116, 111, 114, 97, 103, 101, 95, 97, 99, 99, 111, 117, 110, 116];

/// The seed `vm_durable_nonce`.
pub const VM_DURABLE_NONCE: [u8; 16] = [118, 109, 95, 100, 117, 114, 97, 98, 108, 101, 95, 110, 111, 110, 99, 101];

/// The seed `vm_unlock_pda_account`.
pub const VM_UNLOCK_ACCOUNT: [u8; 21] = [118, 109, 95, 117, 110, 108, 111, 99, 107, 95, 112, 100, 97, 95, 97, 99, 99, 111, 117, 110, 116];

/// The seed `vm_withdraw_receipt_account`.
pub const VM_WITHDRAW_RECEIPT: [u8; 27] = [118, 109, 95, 119, 105, 116, 104, 100, 114, 97, 119, 95, 114, 101, 99, 101, 105, 112, 116, 95, 97, 99, 99, 111, 117, 110, 116];

/// The seed `vm_deposit_pda`.
pub const VM_DEPOSIT_PDA: [u8; 14] = [118, 109, 95, 100, 101, 112, 111, 115, 105, 116, 95, 112, 100, 97];

/// The seed `vm_relay_account`.
pub const VM_RELAY_ACCOUNT: [u8; 16] = [118, 109, 95, 114, 101, 108, 97, 121, 95, 97, 99, 99, 111, 117, 110, 116];

/// The seed `vm_proof_account`.
pub const VM_RELAY_PROOF: [u8; 16] = [118, 109, 95, 112, 114, 111, 111, 102, 95, 97, 99, 99, 111, 117, 110, 116];

/// The seed `vm_relay_vault`.
pub const VM_RELAY_VAULT: [u8; 14] = [118, 109, 95, 114, 101, 108, 97, 121, 95, 118, 97, 117, 108, 116];

/// The seed `relay_commitment`.
pub const VM_RELAY_COMMITMENT: [u8; 16] = [114, 101, 108, 97, 121, 95, 99, 111, 109, 109, 105, 116, 109, 101, 110, 116];

/// The seed `timelock_state`.
pub const VM_TIMELOCK_STATE: [u8; 14] = [116, 105, 109, 101, 108, 111, 99, 107, 95, 115, 116, 97, 116, 101];

/// The seed `timelock_vault`.
pub const VM_TIMELOCK_VAULT: [u8; 14] = [116, 105, 109, 101, 108, 111, 99, 107, 95, 118, 97, 117, 108, 116];

/// The seed `merkletree`.
pub const MERKLE_TREE_SEED: [u8; 10] = [109, 101, 114, 107, 108, 101, 116, 114, 101, 101];

pub const MAX_NAME_LEN: usize = 32;

pub const MIXED_MEMORY_SECTORS: usize = 2;

pub const MIXED_MEMORY_PAGES: usize = 255;

pub const COMPACT_STATE_ITEMS: usize = 100;

pub const COMPRESSED_STATE_DEPTH: usize = 24;

pub const RELAY_STATE_DEPTH: usize = 64;

pub const RELAY_HISTORY_ITEMS: usize = 32;

/// The VM program's address.
pub const ID: [u8; 32] = [
    13, 198, 40, 104, 167, 126, 85, 128, 122, 28, 213, 136, 201, 162, 154, 118,
    107, 62, 226, 174, 205, 192, 125, 224, 140, 254, 145, 7, 221, 75, 49, 101,
];

/// The VM program's address.
pub fn id() -> (r: [u8; 32])
    ensures
        r == ID,
{
    ID
}

} // verus!
