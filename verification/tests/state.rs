use code_vm_api::cvm::pool::TokenPool;
use code_vm_api::cvm::state::memory::{MemoryAccount, MemoryVersion, NUM_ACCOUNTS};
use code_vm_api::cvm::state::relay::RelayAccount;
use code_vm_api::cvm::state::storage::StorageAccount;
use code_vm_api::cvm::state::unlock::{TimelockState, UnlockStateAccount};
use code_vm_api::cvm::state::vm::CodeVmAccount;
use code_vm_api::cvm::state::withdraw::WithdrawReceiptAccount;
use code_vm_api::instruction::CodeInstruction;
use code_vm_api::state::AccountType;
use code_vm_api::types::circular_buffer::CircularBuffer;
use code_vm_api::types::hash::Hash as Digest;
use code_vm_api::types::merkle_tree::MerkleTree;

fn vm() -> CodeVmAccount {
    CodeVmAccount {
        authority: [1u8; 32],
        mint: [2u8; 32],
        slot: 7,
        poh: Digest::new_from_array([3u8; 32]),
        omnibus: TokenPool { vault: [4u8; 32], vault_bump: 250 },
        lock_duration: 21,
        bump: 255,
        padding: [0u8; 5],
    }
}

#[test]
fn vm_account_pack_unpack() {
    let v = vm();
    let bytes = v.pack();
    assert_eq!(bytes.len(), CodeVmAccount::get_size());
    assert_eq!(CodeVmAccount::get_size(), 152);
    assert_eq!(bytes[0], AccountType::CodeVmAccount.to_u8());
    assert_eq!(&bytes[1..8], &[0u8; 7]);
    assert_eq!(bytes[8 + 64], 7);
    assert_eq!(bytes[8 + 136], 250);
    assert_eq!(bytes[8 + 137], 21);
    assert_eq!(CodeVmAccount::unpack(&bytes), v);
    assert_eq!(v.get_omnibus_bump(), 250);
    assert_eq!(v.get_current_slot(), 7);
}

#[test]
fn advance_poh_hashes_keys_and_data() {
    let mut v = vm();
    let keys = [[5u8; 32], [6u8; 32]];
    let data = [9u8, 8, 7];
    let mut message = Vec::new();
    message.extend_from_slice(&keys[0]);
    message.extend_from_slice(&keys[1]);
    message.extend_from_slice(&data);
    let expected = solana_program::hash::hashv(&[&[3u8; 32], &[8u8], &message]);
    v.advance_poh(CodeInstruction::ExecIx, &keys, &data);
    assert_eq!(v.poh.value, expected.to_bytes());
    assert_eq!(v.slot, 8);
}

#[test]
fn unlock_and_receipt_accounts() {
    let u = UnlockStateAccount {
        vm: [1u8; 32],
        owner: [2u8; 32],
        address: [3u8; 32],
        unlock_at: -5,
        bump: 1,
        state: TimelockState::WaitingForTimeout.to_u8(),
        padding: [0u8; 6],
    };
    assert!(u.is_waiting() && !u.is_unlocked());
    let bytes = u.pack();
    assert_eq!(bytes.len(), UnlockStateAccount::get_size());
    assert_eq!(&bytes[8 + 96..8 + 104], &(-5i64).to_le_bytes());
    assert_eq!(UnlockStateAccount::unpack(&bytes), u);
    let w = WithdrawReceiptAccount { unlock_pda: [1u8; 32], nonce: Digest::new_from_array([2u8; 32]), amount: 3, bump: 4, padding: [0u8; 7] };
    assert_eq!(WithdrawReceiptAccount::unpack(&w.pack()), w);
    assert_eq!(TimelockState::try_from_u8(1), Some(TimelockState::Unlocked));
}

#[test]
fn memory_account_info() {
    let mut m = MemoryAccount { vm: [1u8; 32], name: [0u8; 32], bump: 1, version: 1, packed_info: [0u8; 6] };
    m.set_num_accounts(1000);
    m.set_account_size(77);
    assert_eq!(m.get_version(), MemoryVersion::V1);
    assert_eq!(m.get_capacity(), 1000);
    assert_eq!(m.get_account_size(), 77);
    m.set_num_accounts(5);
    assert_eq!(m.get_account_size(), 77);
    assert_eq!(m.get_capacity(), 5);
    let legacy = MemoryAccount { vm: [1u8; 32], name: [0u8; 32], bump: 1, version: 0, packed_info: [0, 0, 0, 0, 0, 2] };
    assert_eq!(legacy.get_capacity(), NUM_ACCOUNTS);
    assert_eq!(legacy.get_account_size(), 65);
    let bytes = m.pack();
    assert_eq!(MemoryAccount::get_capacity_and_size(&bytes), (5, 77));
    assert_eq!(MemoryAccount::get_size_with_data(10, 77), 80 + 10 + 770);
}

#[test]
fn relay_saves_recent_roots() {
    let seeds: &[&[u8]] = &[b"relay"];
    let mut relay = RelayAccount {
        vm: [1u8; 32],
        name: [0u8; 32],
        treasury: TokenPool { vault: [2u8; 32], vault_bump: 1 },
        bump: 1,
        num_levels: 64,
        num_history: 32,
        padding: [0u8; 4],
        recent_roots: CircularBuffer::new(),
        history: MerkleTree::new(seeds),
    };
    relay.save_recent_root();
    relay.save_recent_root();
    assert_eq!(relay.recent_roots.num_items, 1);
    assert_eq!(relay.get_recent_root(), relay.history.get_root());
    assert!(relay.add_commitment(&[9u8; 32]).is_ok());
    relay.save_recent_root();
    assert_eq!(relay.recent_roots.num_items, 2);
    assert_eq!(relay.recent_roots.last().unwrap(), &relay.history.get_root().value);
    assert_eq!(RelayAccount::get_size(), 5280);
}

#[test]
fn relay_account_layout_roundtrip() {
    let seeds: &[&[u8]] = &[b"relay", b"layout"];
    let mut relay = RelayAccount {
        vm: [1u8; 32],
        name: [3u8; 32],
        treasury: TokenPool { vault: [2u8; 32], vault_bump: 7 },
        bump: 5,
        num_levels: 64,
        num_history: 32,
        padding: [0u8; 4],
        recent_roots: CircularBuffer::new(),
        history: MerkleTree::new(seeds),
    };
    assert!(relay.add_commitment(&[9u8; 32]).is_ok());
    relay.save_recent_root();
    let bytes = relay.pack();
    assert_eq!(bytes.len(), RelayAccount::get_size());
    assert_eq!(bytes[0], AccountType::RelayAccount.to_u8());
    let back = RelayAccount::unpack(&bytes);
    assert_eq!(back.pack(), bytes);
    assert_eq!(back.treasury, relay.treasury);
    assert_eq!(back.history.get_root(), relay.history.get_root());
    assert_eq!(back.get_recent_root(), relay.history.get_root());
    // The tree's root sits right after the header and the ring of roots.
    assert_eq!(&bytes[8 + 104 + 32 * 32 + 8..8 + 104 + 32 * 32 + 8 + 32], relay.history.get_root().as_ref());
}

#[test]
fn storage_account_layout_roundtrip() {
    let seeds: &[&[u8]] = &[b"storage"];
    let mut tree: MerkleTree<24> = MerkleTree::new(seeds);
    assert!(tree.try_insert(Digest::new_from_array([4u8; 32])).is_ok());
    let storage = StorageAccount { vm: [1u8; 32], name: [2u8; 32], bump: 3, depth: 24, padding: [0u8; 6], compressed_state: tree };
    let bytes = storage.pack();
    assert_eq!(bytes.len(), StorageAccount::get_size());
    let back = StorageAccount::unpack(&bytes);
    assert_eq!(back.pack(), bytes);
    assert_eq!(back.compressed_state.get_root(), tree.get_root());
    assert_eq!(back.depth, 24);
    // The leaf count closes the data.
    assert_eq!(&bytes[bytes.len() - 8..], &1u64.to_le_bytes());
}
