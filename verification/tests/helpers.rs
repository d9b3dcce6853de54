use code_vm_api::consts::{id, CODE_VM};
use code_vm_api::cvm::account::timelock::VirtualTimelockAccount;
use code_vm_api::cvm::account::virtual_account::VirtualAccount;
use code_vm_api::cvm::pool::TokenPool;
use code_vm_api::cvm::state::memory::MemoryAccount;
use code_vm_api::cvm::state::vm::CodeVmAccount;
use code_vm_api::error::ProgramError;
use code_vm_api::external::checks::AccountView;
use code_vm_api::helpers::{check_mut, check_program, check_readonly, check_signer, check_sysvar, check_uninitialized_pda, get_optional};
use code_vm_api::sdk::{RENT_SYSVAR_ID, SYSTEM_PROGRAM_ID, SYSVAR_ID};
use code_vm_api::helpers::{
    check_is_empty, check_omnibus, check_seeds, check_unique, create_name, load_vm, load_vm_checked, try_delete,
    try_read, try_write,
};
use code_vm_api::types::hash::Hash as Digest;
use solana_program::pubkey::Pubkey as SolKey;
use code_vm_api::consts::VM_STORAGE_ACCOUNT;
use code_vm_api::cvm::state::storage::StorageAccount;
use code_vm_api::helpers::load_storage;
use code_vm_api::types::merkle_tree::MerkleTree;

#[test]
fn unique_keys() {
    assert_eq!(check_unique(&[[1u8; 32], [2u8; 32], [3u8; 32]]), Ok(()));
    assert_eq!(check_unique(&[[1u8; 32], [2u8; 32], [1u8; 32]]), Err(ProgramError::InvalidArgument));
    assert_eq!(check_unique(&[]), Ok(()));
}

#[test]
fn names_are_zero_padded() {
    let n = create_name("relay");
    assert_eq!(&n[..5], b"relay");
    assert!(n[5..].iter().all(|b| *b == 0));
}

#[test]
fn vm_loads_only_at_its_address() {
    let mint = [2u8; 32];
    let authority = [1u8; 32];
    let (key, bump) = SolKey::find_program_address(&[&CODE_VM, &mint, &authority, &[21]], &SolKey::new_from_array(id()));
    let vm = CodeVmAccount {
        authority,
        mint,
        slot: 0,
        poh: Digest::new_from_array([0u8; 32]),
        omnibus: TokenPool { vault: [4u8; 32], vault_bump: 0 },
        lock_duration: 21,
        bump,
        padding: [0u8; 5],
    };
    let data = vm.pack();
    let info = |key: [u8; 32], owner: [u8; 32], is_writable: bool| AccountView { key, owner, executable: false, is_signer: false, is_writable };
    let at = info(key.to_bytes(), id(), true);
    assert_eq!(load_vm(&at, &data), Ok(vm));
    assert_eq!(load_vm(&info([9u8; 32], id(), true), &data), Err(ProgramError::InvalidSeeds));
    assert_eq!(load_vm_checked(&at, &data, &authority), Ok(vm));
    assert_eq!(load_vm_checked(&at, &data, &[0u8; 32]), Err(ProgramError::InvalidArgument));
    assert_eq!(load_vm(&at, &data[..100]), Err(ProgramError::InvalidAccountData));
    let mut wrong = data.clone();
    wrong[0] = 2;
    assert_eq!(load_vm(&at, &wrong), Err(ProgramError::InvalidAccountData));
    // Write access is checked first, then the owner.
    assert_eq!(load_vm(&info(key.to_bytes(), id(), false), &wrong), Err(ProgramError::MissingRequiredSignature));
    assert_eq!(load_vm(&info(key.to_bytes(), [3u8; 32], true), &wrong), Err(ProgramError::InvalidAccountOwner));
    // The omnibus vault must be the one found from the VM, with its bump.
    let (omnibus, omnibus_bump) =
        SolKey::find_program_address(&[&CODE_VM, b"vm_omnibus", &key.to_bytes()], &SolKey::new_from_array(id()));
    assert_eq!(check_omnibus(&omnibus.to_bytes(), &at, &data), Err(ProgramError::InvalidSeeds));
    let mut with_bump = vm;
    with_bump.omnibus.vault_bump = omnibus_bump;
    assert_eq!(check_omnibus(&omnibus.to_bytes(), &at, &with_bump.pack()), Ok(()));
    assert_eq!(check_omnibus(&[7u8; 32], &at, &with_bump.pack()), Err(ProgramError::InvalidSeeds));
    let seeds: [&[u8]; 4] = [&CODE_VM, &mint, &authority, &[21]];
    assert_eq!(check_seeds(&key.to_bytes(), &seeds, bump, &id()), Ok(()));
}

#[test]
fn memory_slots_write_read_delete() {
    let mut header_account = MemoryAccount { vm: [1u8; 32], name: [0u8; 32], bump: 1, version: 1, packed_info: [0u8; 6] };
    header_account.set_num_accounts(4);
    header_account.set_account_size(77);
    let header = header_account.pack();
    let mut slots = vec![0u8; 4 + 4 * 77];
    let va = VirtualAccount::Timelock(VirtualTimelockAccount {
        owner: [1u8; 32],
        instance: Digest::new_from_array([2u8; 32]),
        token_bump: 3,
        unlock_bump: 4,
        withdraw_bump: 5,
        balance: 100,
        bump: 6,
    });
    assert_eq!(check_is_empty(&header, &slots, 2), Ok(()));
    assert_eq!(try_read(&header, &slots, 2), Err(ProgramError::InvalidArgument));
    assert_eq!(try_write(&header, &mut slots, 2, &va), Ok(()));
    assert_eq!(slots[2], 1);
    assert_eq!(check_is_empty(&header, &slots, 2), Err(ProgramError::InvalidArgument));
    assert_eq!(try_read(&header, &slots, 2), Ok(va));
    assert_eq!(try_delete(&header, &mut slots, 2), Ok(()));
    assert_eq!(slots[2], 0);
    assert_eq!(try_read(&header, &slots, 2), Err(ProgramError::InvalidArgument));
    let mut short = vec![0u8; 10];
    assert_eq!(try_write(&header, &mut short, 0, &va), Err(ProgramError::InvalidArgument));
}

#[test]
fn account_privilege_checks() {
    let view = |is_signer: bool, is_writable: bool| AccountView { key: [4u8; 32], owner: [0u8; 32], executable: false, is_signer, is_writable };
    assert_eq!(check_signer(&view(true, true)), Ok(()));
    assert_eq!(check_signer(&view(true, false)), Err(ProgramError::MissingRequiredSignature));
    assert_eq!(check_signer(&view(false, true)), Err(ProgramError::MissingRequiredSignature));
    assert_eq!(check_mut(&view(false, true)), Ok(()));
    assert_eq!(check_mut(&view(true, false)), Err(ProgramError::MissingRequiredSignature));
    assert_eq!(check_readonly(&view(true, false)), Ok(()));
    assert_eq!(check_readonly(&view(false, true)), Err(ProgramError::InvalidAccountData));
    let some = view(false, false);
    assert_eq!(get_optional(&some), Some(&some));
    let absent = AccountView { key: code_vm_api::consts::ID, owner: [0u8; 32], executable: false, is_signer: false, is_writable: false };
    assert_eq!(get_optional(&absent), None);
}

#[test]
fn program_sysvar_and_fresh_account_checks() {
    let view = |key: [u8; 32], owner: [u8; 32], executable: bool, is_writable: bool| AccountView {
        key,
        owner,
        executable,
        is_signer: false,
        is_writable,
    };
    let program = [8u8; 32];
    assert_eq!(check_program(&view(program, [0u8; 32], true, false), &program), Ok(()));
    assert_eq!(check_program(&view(program, [0u8; 32], false, false), &program), Err(ProgramError::InvalidAccountData));
    assert_eq!(check_program(&view([9u8; 32], [0u8; 32], true, false), &program), Err(ProgramError::InvalidAccountData));

    assert_eq!(check_sysvar(&view(RENT_SYSVAR_ID, SYSVAR_ID, false, false), &RENT_SYSVAR_ID), Ok(()));
    assert_eq!(check_sysvar(&view(RENT_SYSVAR_ID, [1u8; 32], false, false), &RENT_SYSVAR_ID), Err(ProgramError::InvalidAccountOwner));
    assert_eq!(check_sysvar(&view([2u8; 32], SYSVAR_ID, false, false), &RENT_SYSVAR_ID), Err(ProgramError::InvalidAccountData));

    let seeds: [&[u8]; 2] = [b"fresh", &[1, 2, 3]];
    let (pda, bump) = SolKey::find_program_address(&seeds, &SolKey::new_from_array(id()));
    let fresh = view(pda.to_bytes(), SYSTEM_PROGRAM_ID, false, true);
    assert_eq!(check_uninitialized_pda(&fresh, &[], &seeds, bump, &id()), Ok(()));
    assert_eq!(check_uninitialized_pda(&fresh, &[], &seeds, bump.wrapping_sub(1), &id()), Err(ProgramError::InvalidSeeds));
    assert_eq!(check_uninitialized_pda(&fresh, &[0], &seeds, bump, &id()), Err(ProgramError::AccountAlreadyInitialized));
    let readonly = view(pda.to_bytes(), SYSTEM_PROGRAM_ID, false, false);
    assert_eq!(check_uninitialized_pda(&readonly, &[], &seeds, bump, &id()), Err(ProgramError::MissingRequiredSignature));
    let owned = view(pda.to_bytes(), id(), false, true);
    assert_eq!(check_uninitialized_pda(&owned, &[], &seeds, bump, &id()), Err(ProgramError::InvalidAccountData));
}

#[test]
fn storage_load_names_the_check_that_failed() {
    let vm_key = [6u8; 32];
    let name = create_name("storage");
    let (key, bump) =
        SolKey::find_program_address(&[&CODE_VM, &VM_STORAGE_ACCOUNT, &name, &vm_key], &SolKey::new_from_array(id()));
    let seeds: [&[u8]; 1] = [b"merkletree"];
    let storage = StorageAccount {
        vm: vm_key,
        name,
        bump,
        depth: 24,
        padding: [0u8; 6],
        compressed_state: MerkleTree::<24>::new(&seeds),
    };
    let at = AccountView { key: key.to_bytes(), owner: id(), executable: false, is_signer: false, is_writable: true };
    assert_eq!(load_storage(&at, &storage.pack(), &vm_key).unwrap().pack(), storage.pack());
    // Another address: the seeds check fails.
    let elsewhere = AccountView { key: [9u8; 32], ..at };
    assert_eq!(load_storage(&elsewhere, &storage.pack(), &vm_key).err(), Some(ProgramError::InvalidSeeds));
    // The right address, but the account names another VM or depth.
    let mut other_vm = storage;
    other_vm.vm = [5u8; 32];
    assert_eq!(load_storage(&at, &other_vm.pack(), &vm_key).err(), Some(ProgramError::InvalidArgument));
    let mut other_depth = storage;
    other_depth.depth = 20;
    assert_eq!(load_storage(&at, &other_depth.pack(), &vm_key).err(), Some(ProgramError::InvalidArgument));
}
