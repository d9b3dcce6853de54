//! Checks the program makes on its accounts, and the reads and writes of
//! virtual accounts in a memory account's slots.
//!
//! A memory account's data is an 80-byte header (`MemoryAccount`) followed
//! by its slots: one state byte per slot, then the slots' bytes. The
//! functions here take the header and the slots as two byte strings.
use vstd::prelude::*;

use crate::consts::{CODE_VM, COMPRESSED_STATE_DEPTH, ID, MAX_NAME_LEN, RELAY_STATE_DEPTH, VM_MEMORY_ACCOUNT, VM_OMNIBUS, VM_RELAY_ACCOUNT, VM_STORAGE_ACCOUNT};
use crate::cvm::account::virtual_account::{variant_size, VirtualAccount};
use crate::cvm::state::memory::{legacy_account_size, MemoryAccount, NUM_ACCOUNTS};
use crate::cvm::state::relay::RelayAccount;
use crate::cvm::state::storage::StorageAccount;
use crate::cvm::state::vm::CodeVmAccount;
use crate::error::{check_condition, ProgramError};
use crate::external::checks::{keys_equal, AccountView};
use crate::sdk::{SYSTEM_PROGRAM_ID, SYSVAR_ID};
use crate::pdas::{finds, found_address, lemma_found_unique, program_address, try_find_program_address};
use crate::state::AccountType;
use crate::types::hash;
use crate::types::merkle_tree::{has_room, hviews, leaf_of, MerkleTree};
use crate::types::slice_allocator::{SliceAllocator, ITEM_FREE, ITEM_USED};
use crate::types::Pubkey;
use vstd::bytes::{spec_u16_from_le_bytes, spec_u32_from_le_bytes};
use vstd::utf8::encode_utf8;

verus! {

/// Whether `key` and `bump` are what the bump search over `seeds` finds
/// under `program_id`: the highest bump that gives an address, and that
/// address.
pub open spec fn derives(key: Seq<u8>, seeds: Seq<Seq<u8>>, bump: u8, program_id: Seq<u8>) -> bool {
    found_address(seeds, program_id, key, bump)
}

/// Fails with `InvalidSeeds` unless `key` is the address that the bump
/// search over `seeds` finds under `program_id`, and `bump` the bump it
/// finds; where no bump gives an address, that fails too.
pub fn check_seeds(key: &Pubkey, seeds: &[&[u8]], bump: u8, program_id: &Pubkey) -> (r: Result<
    (),
    ProgramError,
>)
    ensures
        r is Ok <==> derives(key@, seeds.deep_view(), bump, program_id@),
        r is Err ==> r == Err::<(), ProgramError>(ProgramError::InvalidSeeds),
{
    match try_find_program_address(seeds, program_id) {
        Some((pda, found_bump)) => {
            if crate::bytes::bytes_eq(pda.as_slice(), key.as_slice()) && found_bump == bump {
                proof {
                    crate::codec::lemma_array_ext(pda, *key);
                }
                Ok(())
            } else {
                proof {
                    if derives(key@, seeds.deep_view(), bump, program_id@) {
                        lemma_found_unique(seeds.deep_view(), program_id@, pda@, found_bump, key@, bump);
                    }
                }
                Err(ProgramError::InvalidSeeds)
            }
        },
        None => Err(ProgramError::InvalidSeeds),
    }
}

/// An optional account: the program's own address stands for an absent
/// one.
pub fn get_optional(account: &AccountView) -> (r: Option<&AccountView>)
    ensures
        account.key == ID ==> r is None,
        account.key != ID ==> r == Some(account),
{
    if keys_equal(&account.key, &ID) {
        None
    } else {
        Some(account)
    }
}

/// Fails with `MissingRequiredSignature` unless the account signed and is
/// writable.
pub fn check_signer(account: &AccountView) -> (r: Result<(), ProgramError>)
    ensures
        account.is_signer && account.is_writable ==> r is Ok,
        !(account.is_signer && account.is_writable) ==> r == Err::<(), ProgramError>(ProgramError::MissingRequiredSignature),
{
    if !account.is_signer || !account.is_writable {
        return Err(ProgramError::MissingRequiredSignature);
    }
    Ok(())
}

/// Fails with `MissingRequiredSignature` unless the account is writable.
pub fn check_mut(account: &AccountView) -> (r: Result<(), ProgramError>)
    ensures
        account.is_writable ==> r is Ok,
        !account.is_writable ==> r == Err::<(), ProgramError>(ProgramError::MissingRequiredSignature),
{
    if !account.is_writable {
        return Err(ProgramError::MissingRequiredSignature);
    }
    Ok(())
}

/// Fails with `InvalidAccountData` when the account is writable.
pub fn check_readonly(account: &AccountView) -> (r: Result<(), ProgramError>)
    ensures
        !account.is_writable ==> r is Ok,
        account.is_writable ==> r == Err::<(), ProgramError>(ProgramError::InvalidAccountData),
{
    if account.is_writable {
        return Err(ProgramError::InvalidAccountData);
    }
    Ok(())
}

/// Fails with `InvalidAccountData` unless the account is the executable
/// program at `program_id`.
pub fn check_program(account: &AccountView, program_id: &Pubkey) -> (r: Result<(), ProgramError>)
    ensures
        account.key == *program_id && account.executable ==> r is Ok,
        !(account.key == *program_id && account.executable) ==> r == Err::<(), ProgramError>(
            ProgramError::InvalidAccountData,
        ),
{
    if !keys_equal(&account.key, program_id) || !account.executable {
        return Err(ProgramError::InvalidAccountData);
    }
    Ok(())
}

/// Fails unless the account is the sysvar at `sysvar_id`: with
/// `InvalidAccountOwner` where the sysvar program does not own it, then
/// with `InvalidAccountData` where its address is another.
pub fn check_sysvar(account: &AccountView, sysvar_id: &Pubkey) -> (r: Result<(), ProgramError>)
    ensures
        account.owner != SYSVAR_ID ==> r == Err::<(), ProgramError>(ProgramError::InvalidAccountOwner),
        account.owner == SYSVAR_ID && account.key != *sysvar_id ==> r == Err::<(), ProgramError>(
            ProgramError::InvalidAccountData,
        ),
        account.owner == SYSVAR_ID && account.key == *sysvar_id ==> r is Ok,
{
    let sysvar_program = SYSVAR_ID;
    if !keys_equal(&account.owner, &sysvar_program) {
        return Err(ProgramError::InvalidAccountOwner);
    }
    if !keys_equal(&account.key, sysvar_id) {
        return Err(ProgramError::InvalidAccountData);
    }
    Ok(())
}

/// Fails unless the account, whose data is `data`, is a fresh account at
/// the address that the bump search over `seeds` finds: with
/// `InvalidAccountData` where the system program does not own it, then
/// `AccountAlreadyInitialized` where it holds data, then
/// `MissingRequiredSignature` where it is not writable, then `InvalidSeeds`
/// where its address or `bump` is not the one found.
pub fn check_uninitialized_pda(
    account: &AccountView,
    data: &[u8],
    seeds: &[&[u8]],
    bump: u8,
    program_id: &Pubkey,
) -> (r: Result<(), ProgramError>)
    ensures
        account.owner != SYSTEM_PROGRAM_ID ==> r == Err::<(), ProgramError>(ProgramError::InvalidAccountData),
        account.owner == SYSTEM_PROGRAM_ID && data@.len() != 0 ==> r == Err::<(), ProgramError>(
            ProgramError::AccountAlreadyInitialized,
        ),
        account.owner == SYSTEM_PROGRAM_ID && data@.len() == 0 && !account.is_writable ==> r == Err::<
            (),
            ProgramError,
        >(ProgramError::MissingRequiredSignature),
        account.owner == SYSTEM_PROGRAM_ID && data@.len() == 0 && account.is_writable ==> ({
            &&& r is Ok <==> derives(account.key@, seeds.deep_view(), bump, program_id@)
            &&& r is Err ==> r == Err::<(), ProgramError>(ProgramError::InvalidSeeds)
        }),
{
    let system_program = SYSTEM_PROGRAM_ID;
    if !keys_equal(&account.owner, &system_program) {
        return Err(ProgramError::InvalidAccountData);
    }
    if data.len() != 0 {
        return Err(ProgramError::AccountAlreadyInitialized);
    }
    check_mut(account)?;
    check_seeds(&account.key, seeds, bump, program_id)
}

/// Fails with `InvalidArgument` when two of `keys` are equal.
pub fn check_unique(keys: &[Pubkey]) -> (r: Result<(), ProgramError>)
    ensures
        r is Ok <==> forall|i: int, j: int| 0 <= i < j < keys@.len() ==> keys@[i] != keys@[j],
        r is Err ==> r == Err::<(), ProgramError>(ProgramError::InvalidArgument),
{
    let n = keys.len();
    let mut i: usize = 0;
    while i < n
        invariant
            n == keys@.len(),
            i <= n,
            forall|a: int, b: int| 0 <= a < i && a < b < n ==> keys@[a] != keys@[b],
        decreases n - i,
    {
        let mut j: usize = i + 1;
        while j < n
            invariant
                n == keys@.len(),
                i < n,
                i + 1 <= j <= n,
                forall|a: int, b: int| 0 <= a < i && a < b < n ==> keys@[a] != keys@[b],
                forall|b: int| i < b < j ==> keys@[i as int] != keys@[b],
            decreases n - j,
        {
            if crate::bytes::bytes_eq(keys[i].as_slice(), keys[j].as_slice()) {
                proof {
                    crate::codec::lemma_array_ext(keys@[i as int], keys@[j as int]);
                }
                return Err(ProgramError::InvalidArgument);
            }
            j = j + 1;
        }
        i = i + 1;
    }
    Ok(())
}

/// A name as the fixed 32-byte field accounts hold: its UTF-8 bytes, then
/// zeros.
pub fn create_name(name: &str) -> (r: [u8; 32])
    requires
        encode_utf8(name@).len() <= MAX_NAME_LEN,
    ensures
        r@ == encode_utf8(name@) + Seq::new((32 - encode_utf8(name@).len()) as nat, |i: int| 0u8),
{
    let bytes = name.as_bytes();
    let mut name_bytes = [0u8; 32];
    let mut i: usize = 0;
    while i < bytes.len()
        invariant
            bytes@ == encode_utf8(name@),
            bytes@.len() <= 32,
            i <= bytes@.len(),
            forall|j: int| 0 <= j < i ==> name_bytes@[j] == bytes@[j],
            forall|j: int| bytes@.len() <= j < 32 ==> name_bytes@[j] == 0,
        decreases bytes@.len() - i,
    {
        name_bytes[i] = bytes[i];
        i = i + 1;
    }
    assert(name_bytes@ =~= encode_utf8(name@) + Seq::new(
        (32 - encode_utf8(name@).len()) as nat,
        |i: int| 0u8,
    ));
    name_bytes
}

/// The seeds of a VM's address.
pub open spec fn vm_seeds(vm: CodeVmAccount) -> Seq<Seq<u8>> {
    seq![CODE_VM@, vm.mint@, vm.authority@, seq![vm.lock_duration]]
}

/// Why one of the program's own accounts cannot be loaded for writing, if
/// it cannot: it must be writable (`MissingRequiredSignature`), owned by
/// the program (`InvalidAccountOwner`), and its data must hold `size` bytes
/// and lead with the account type (`InvalidAccountData`), checked in that
/// order.
pub open spec fn load_error(info: AccountView, data: Seq<u8>, t: AccountType, size: nat) -> Option<ProgramError> {
    if !info.is_writable {
        Some(ProgramError::MissingRequiredSignature)
    } else if info.owner != ID {
        Some(ProgramError::InvalidAccountOwner)
    } else if data.len() < size || data[0] != t.code() {
        Some(ProgramError::InvalidAccountData)
    } else {
        None
    }
}

fn check_loadable(info: &AccountView, data: &[u8], t: AccountType, size: usize) -> (r: Result<(), ProgramError>)
    requires
        size >= 1,
    ensures
        r == (match load_error(*info, data@, t, size as nat) {
            Some(e) => Err(e),
            None => Ok(()),
        }),
{
    if !info.is_writable {
        return Err(ProgramError::MissingRequiredSignature);
    }
    if !keys_equal(&info.owner, &ID) {
        return Err(ProgramError::InvalidAccountOwner);
    }
    if data.len() < size || data[0] != t.to_u8() {
        return Err(ProgramError::InvalidAccountData);
    }
    Ok(())
}

/// Loads the VM account from `vm_info` and its data, after the checks of
/// `load_error`; refused with `InvalidSeeds` where the account's address is
/// not the one found from the VM's mint, authority and lock duration.
pub fn load_vm(vm_info: &AccountView, data: &[u8]) -> (r: Result<CodeVmAccount, ProgramError>)
    ensures
        load_error(*vm_info, data@, AccountType::CodeVmAccount, 152) matches Some(e) ==> r == Err::<
            CodeVmAccount,
            ProgramError,
        >(e),
        load_error(*vm_info, data@, AccountType::CodeVmAccount, 152) is None ==> ({
            &&& r is Ok <==> (exists|vm: CodeVmAccount| vm.spec_bytes() == data@.subrange(8, 152)
                && derives(vm_info.key@, vm_seeds(vm), vm.bump, ID@))
            &&& r matches Ok(vm) ==> vm.spec_bytes() == data@.subrange(8, 152)
            &&& r is Err ==> r == Err::<CodeVmAccount, ProgramError>(ProgramError::InvalidSeeds)
        }),
{
    check_loadable(vm_info, data, AccountType::CodeVmAccount, CodeVmAccount::get_size())?;
    let vm = CodeVmAccount::unpack(data);
    let lock = [vm.lock_duration];
    let code_vm = CODE_VM;
    let seeds: [&[u8]; 4] = [code_vm.as_slice(), vm.mint.as_slice(), vm.authority.as_slice(), lock.as_slice()];
    let s = seeds.as_slice();
    assert(s.deep_view() =~= vm_seeds(vm)) by {
        assert(s@[0].deep_view() =~= CODE_VM@);
        assert(s@[1].deep_view() =~= vm.mint@);
        assert(s@[2].deep_view() =~= vm.authority@);
        assert(s@[3].deep_view() =~= seq![vm.lock_duration]);
    }
    let id = ID;
    let checked = check_seeds(&vm_info.key, s, vm.bump, &id);
    proof {
        if !derives(vm_info.key@, vm_seeds(vm), vm.bump, ID@) {
            assert forall|w: CodeVmAccount| w.spec_bytes() == data@.subrange(8, 152) implies !derives(
                vm_info.key@,
                vm_seeds(w),
                w.bump,
                ID@,
            ) by {
                vm.lemma_bytes_determine(w);
            }
        }
    }
    match checked {
        Ok(()) => Ok(vm),
        Err(e) => Err(e),
    }
}

/// `load_vm`, with a check that `authority_key` is the VM's authority
/// (`InvalidArgument`) made before the seeds are.
pub fn load_vm_checked(vm_info: &AccountView, data: &[u8], authority_key: &Pubkey) -> (r: Result<
    CodeVmAccount,
    ProgramError,
>)
    ensures
        load_error(*vm_info, data@, AccountType::CodeVmAccount, 152) matches Some(e) ==> r == Err::<
            CodeVmAccount,
            ProgramError,
        >(e),
        load_error(*vm_info, data@, AccountType::CodeVmAccount, 152) is None ==> ({
            &&& r is Ok <==> (exists|vm: CodeVmAccount| vm.spec_bytes() == data@.subrange(8, 152)
                && vm.authority == *authority_key && derives(vm_info.key@, vm_seeds(vm), vm.bump, ID@))
            &&& r matches Ok(vm) ==> vm.spec_bytes() == data@.subrange(8, 152)
            &&& r == Err::<CodeVmAccount, ProgramError>(ProgramError::InvalidArgument) <==> (exists|vm: CodeVmAccount|
                vm.spec_bytes() == data@.subrange(8, 152) && vm.authority != *authority_key)
            &&& r == Err::<CodeVmAccount, ProgramError>(ProgramError::InvalidSeeds) <==> (exists|vm: CodeVmAccount|
                vm.spec_bytes() == data@.subrange(8, 152) && vm.authority == *authority_key
                && !derives(vm_info.key@, vm_seeds(vm), vm.bump, ID@))
        }),
{
    check_loadable(vm_info, data, AccountType::CodeVmAccount, CodeVmAccount::get_size())?;
    let vm = CodeVmAccount::unpack(data);
    let same = crate::bytes::bytes_eq(vm.authority.as_slice(), authority_key.as_slice());
    proof {
        if same {
            crate::codec::lemma_array_ext(vm.authority, *authority_key);
        }
        assert forall|w: CodeVmAccount| w.spec_bytes() == data@.subrange(8, 152) implies w == vm by {
            vm.lemma_bytes_determine(w);
        }
    }
    if !same {
        return Err(ProgramError::InvalidArgument);
    }
    load_vm(vm_info, data)
}

/// The seeds of a memory account's address.
pub open spec fn memory_seeds(memory: MemoryAccount, vm_key: Seq<u8>) -> Seq<Seq<u8>> {
    seq![CODE_VM@, VM_MEMORY_ACCOUNT@, memory.name@, vm_key]
}

/// Loads a memory account's header from `memory_info` and its data, after
/// the checks of `load_error`; refused with `InvalidSeeds` where the
/// address is not the one found from the name and `vm_key`, and with
/// `InvalidArgument` where the header names another VM.
pub fn load_memory(memory_info: &AccountView, data: &[u8], vm_key: &Pubkey) -> (r: Result<
    MemoryAccount,
    ProgramError,
>)
    ensures
        load_error(*memory_info, data@, AccountType::MemoryAccount, 80) matches Some(e) ==> r == Err::<
            MemoryAccount,
            ProgramError,
        >(e),
        load_error(*memory_info, data@, AccountType::MemoryAccount, 80) is None ==> ({
            &&& r is Ok <==> (exists|m: MemoryAccount| m.spec_bytes() == data@.subrange(8, 80)
                && derives(memory_info.key@, memory_seeds(m, vm_key@), m.bump, ID@) && m.vm == *vm_key)
            &&& r matches Ok(m) ==> m.spec_bytes() == data@.subrange(8, 80)
            &&& r == Err::<MemoryAccount, ProgramError>(ProgramError::InvalidSeeds) <==> (exists|m: MemoryAccount|
                m.spec_bytes() == data@.subrange(8, 80) && !derives(memory_info.key@, memory_seeds(m, vm_key@), m.bump, ID@))
            &&& r == Err::<MemoryAccount, ProgramError>(ProgramError::InvalidArgument) <==> (exists|m: MemoryAccount|
                m.spec_bytes() == data@.subrange(8, 80) && derives(memory_info.key@, memory_seeds(m, vm_key@), m.bump, ID@)
                && m.vm != *vm_key)
        }),
{
    check_loadable(memory_info, data, AccountType::MemoryAccount, MemoryAccount::get_size())?;
    let memory = MemoryAccount::unpack(data);
    proof {
        assert forall|w: MemoryAccount| w.spec_bytes() == data@.subrange(8, 80) implies w == memory by {
            memory.lemma_bytes_determine(w);
        }
    }
    let code_vm = CODE_VM;
    let tag = VM_MEMORY_ACCOUNT;
    let seeds: [&[u8]; 4] = [code_vm.as_slice(), tag.as_slice(), memory.name.as_slice(), vm_key.as_slice()];
    let s = seeds.as_slice();
    assert(s.deep_view() =~= memory_seeds(memory, vm_key@)) by {
        assert(s@[0].deep_view() =~= CODE_VM@);
        assert(s@[1].deep_view() =~= VM_MEMORY_ACCOUNT@);
        assert(s@[2].deep_view() =~= memory.name@);
        assert(s@[3].deep_view() =~= vm_key@);
    }
    let id = ID;
    check_seeds(&memory_info.key, s, memory.bump, &id)?;
    let same = crate::bytes::bytes_eq(memory.vm.as_slice(), vm_key.as_slice());
    if !same {
        return Err(ProgramError::InvalidArgument);
    }
    proof {
        crate::codec::lemma_array_ext(memory.vm, *vm_key);
    }
    Ok(memory)
}

/// `load_memory`, keeping only whether it succeeded.
pub fn check_memory(memory_info: &AccountView, data: &[u8], vm_key: &Pubkey) -> (r: Result<(), ProgramError>)
    ensures
        load_error(*memory_info, data@, AccountType::MemoryAccount, 80) matches Some(e) ==> r == Err::<
            (),
            ProgramError,
        >(e),
        load_error(*memory_info, data@, AccountType::MemoryAccount, 80) is None ==> (r is Ok <==> (exists|
            m: MemoryAccount,
        | m.spec_bytes() == data@.subrange(8, 80) && derives(memory_info.key@, memory_seeds(m, vm_key@), m.bump, ID@)
            && m.vm == *vm_key)),
{
    load_memory(memory_info, data, vm_key)?;
    Ok(())
}

/// Checks that `omnibus_key` is the omnibus vault of the VM, after loading
/// the VM as `load_vm` does.
pub fn check_omnibus(omnibus_key: &Pubkey, vm_info: &AccountView, vm_data: &[u8]) -> (r: Result<
    (),
    ProgramError,
>)
    ensures
        load_error(*vm_info, vm_data@, AccountType::CodeVmAccount, 152) matches Some(e) ==> r == Err::<
            (),
            ProgramError,
        >(e),
        load_error(*vm_info, vm_data@, AccountType::CodeVmAccount, 152) is None ==> (r is Ok <==> (exists|
            vm: CodeVmAccount,
        | vm.spec_bytes() == vm_data@.subrange(8, 152) && derives(vm_info.key@, vm_seeds(vm), vm.bump, ID@)
            && derives(omnibus_key@, seq![CODE_VM@, VM_OMNIBUS@, vm_info.key@], vm.omnibus.vault_bump, ID@))),
        r is Err ==> (r == Err::<(), ProgramError>(ProgramError::MissingRequiredSignature)
            || r == Err::<(), ProgramError>(ProgramError::InvalidAccountOwner)
            || r == Err::<(), ProgramError>(ProgramError::InvalidAccountData)
            || r == Err::<(), ProgramError>(ProgramError::InvalidSeeds)),
{
    let vm = load_vm(vm_info, vm_data)?;
    proof {
        assert forall|w: CodeVmAccount| w.spec_bytes() == vm_data@.subrange(8, 152) implies w == vm by {
            vm.lemma_bytes_determine(w);
        }
    }
    let code_vm = CODE_VM;
    let tag = VM_OMNIBUS;
    let vm_key = vm_info.key;
    let seeds: [&[u8]; 3] = [code_vm.as_slice(), tag.as_slice(), vm_key.as_slice()];
    let s = seeds.as_slice();
    assert(s.deep_view() =~= seq![CODE_VM@, VM_OMNIBUS@, vm_info.key@]) by {
        assert(s@[0].deep_view() =~= CODE_VM@);
        assert(s@[1].deep_view() =~= VM_OMNIBUS@);
        assert(s@[2].deep_view() =~= vm_info.key@);
    }
    let id = ID;
    check_seeds(omnibus_key, s, vm.get_omnibus_bump(), &id)
}

/// The seeds of a storage account's address.
pub open spec fn storage_seeds(storage: StorageAccount, vm_key: Seq<u8>) -> Seq<Seq<u8>> {
    seq![CODE_VM@, VM_STORAGE_ACCOUNT@, storage.name@, vm_key]
}

/// Loads a storage account from `storage_info` and its data, after the
/// checks of `load_error`; refused with `InvalidSeeds` where the address is
/// not the one found from the name and `vm_key`, and with
/// `InvalidArgument` where the account names another VM or its tree has
/// another depth.
pub fn load_storage(storage_info: &AccountView, data: &[u8], vm_key: &Pubkey) -> (r: Result<
    StorageAccount,
    ProgramError,
>)
    ensures
        load_error(*storage_info, data@, AccountType::StorageAccount, 1656) matches Some(e) ==> r == Err::<
            StorageAccount,
            ProgramError,
        >(e),
        load_error(*storage_info, data@, AccountType::StorageAccount, 1656) is None ==> ({
            &&& r is Ok <==> (exists|st: StorageAccount| st.spec_bytes() == data@.subrange(8, 1656)
                && derives(storage_info.key@, storage_seeds(st, vm_key@), st.bump, ID@) && st.vm == *vm_key
                && st.depth == COMPRESSED_STATE_DEPTH)
            &&& r matches Ok(st) ==> st.spec_bytes() == data@.subrange(8, 1656)
            &&& r == Err::<StorageAccount, ProgramError>(ProgramError::InvalidSeeds) <==> (exists|st: StorageAccount|
                st.spec_bytes() == data@.subrange(8, 1656) && !derives(storage_info.key@, storage_seeds(st, vm_key@), st.bump, ID@))
            &&& r == Err::<StorageAccount, ProgramError>(ProgramError::InvalidArgument) <==> (exists|st: StorageAccount|
                st.spec_bytes() == data@.subrange(8, 1656) && derives(storage_info.key@, storage_seeds(st, vm_key@), st.bump, ID@)
                && !(st.vm == *vm_key && st.depth == COMPRESSED_STATE_DEPTH))
        }),
{
    check_loadable(storage_info, data, AccountType::StorageAccount, StorageAccount::get_size())?;
    let storage = StorageAccount::unpack(data);
    proof {
        assert forall|w: StorageAccount| w.spec_bytes() == data@.subrange(8, 1656) implies w == storage by {
            storage.lemma_bytes_determine(w);
        }
    }
    let code_vm = CODE_VM;
    let tag = VM_STORAGE_ACCOUNT;
    let seeds: [&[u8]; 4] = [code_vm.as_slice(), tag.as_slice(), storage.name.as_slice(), vm_key.as_slice()];
    let s = seeds.as_slice();
    assert(s.deep_view() =~= storage_seeds(storage, vm_key@)) by {
        assert(s@[0].deep_view() =~= CODE_VM@);
        assert(s@[1].deep_view() =~= VM_STORAGE_ACCOUNT@);
        assert(s@[2].deep_view() =~= storage.name@);
        assert(s@[3].deep_view() =~= vm_key@);
    }
    let id = ID;
    check_seeds(&storage_info.key, s, storage.bump, &id)?;
    let same = crate::bytes::bytes_eq(storage.vm.as_slice(), vm_key.as_slice());
    proof {
        if same {
            crate::codec::lemma_array_ext(storage.vm, *vm_key);
        }
    }
    check_condition(same)?;
    check_condition(storage.depth as usize == COMPRESSED_STATE_DEPTH)?;
    Ok(storage)
}

/// `load_storage`, keeping only whether it succeeded.
pub fn check_storage(storage_info: &AccountView, data: &[u8], vm_key: &Pubkey) -> (r: Result<(), ProgramError>)
    ensures
        load_error(*storage_info, data@, AccountType::StorageAccount, 1656) matches Some(e) ==> r == Err::<
            (),
            ProgramError,
        >(e),
        load_error(*storage_info, data@, AccountType::StorageAccount, 1656) is None ==> (r is Ok <==> (exists|
            st: StorageAccount,
        | st.spec_bytes() == data@.subrange(8, 1656) && derives(storage_info.key@, storage_seeds(st, vm_key@), st.bump, ID@)
            && st.vm == *vm_key && st.depth == COMPRESSED_STATE_DEPTH)),
{
    load_storage(storage_info, data, vm_key)?;
    Ok(())
}

/// The seeds of a relay's address.
pub open spec fn relay_seeds(relay: RelayAccount, vm_key: Seq<u8>) -> Seq<Seq<u8>> {
    seq![CODE_VM@, VM_RELAY_ACCOUNT@, relay.name@, vm_key]
}

/// Loads a relay from `relay_info` and its data, after the checks of
/// `load_error`; refused with `InvalidSeeds` where the address is not the
/// one found from the name and `vm_key`, and with `InvalidArgument` where
/// the relay names another VM or its tree has another depth.
pub fn load_relay(relay_info: &AccountView, data: &[u8], vm_key: &Pubkey) -> (r: Result<
    RelayAccount,
    ProgramError,
>)
    ensures
        load_error(*relay_info, data@, AccountType::RelayAccount, 5280) matches Some(e) ==> r == Err::<
            RelayAccount,
            ProgramError,
        >(e),
        load_error(*relay_info, data@, AccountType::RelayAccount, 5280) is None ==> ({
            &&& r is Ok <==> (exists|rl: RelayAccount| rl.spec_bytes() == data@.subrange(8, 5280)
                && derives(relay_info.key@, relay_seeds(rl, vm_key@), rl.bump, ID@) && rl.vm == *vm_key
                && rl.num_levels == RELAY_STATE_DEPTH)
            &&& r matches Ok(rl) ==> rl.spec_bytes() == data@.subrange(8, 5280)
            &&& r == Err::<RelayAccount, ProgramError>(ProgramError::InvalidSeeds) <==> (exists|rl: RelayAccount|
                rl.spec_bytes() == data@.subrange(8, 5280) && !derives(relay_info.key@, relay_seeds(rl, vm_key@), rl.bump, ID@))
            &&& r == Err::<RelayAccount, ProgramError>(ProgramError::InvalidArgument) <==> (exists|rl: RelayAccount|
                rl.spec_bytes() == data@.subrange(8, 5280) && derives(relay_info.key@, relay_seeds(rl, vm_key@), rl.bump, ID@)
                && !(rl.vm == *vm_key && rl.num_levels == RELAY_STATE_DEPTH))
        }),
{
    check_loadable(relay_info, data, AccountType::RelayAccount, RelayAccount::get_size())?;
    let relay = RelayAccount::unpack(data);
    proof {
        assert forall|w: RelayAccount| w.spec_bytes() == data@.subrange(8, 5280) implies w == relay by {
            relay.lemma_bytes_determine(w);
        }
    }
    let code_vm = CODE_VM;
    let tag = VM_RELAY_ACCOUNT;
    let seeds: [&[u8]; 4] = [code_vm.as_slice(), tag.as_slice(), relay.name.as_slice(), vm_key.as_slice()];
    let s = seeds.as_slice();
    assert(s.deep_view() =~= relay_seeds(relay, vm_key@)) by {
        assert(s@[0].deep_view() =~= CODE_VM@);
        assert(s@[1].deep_view() =~= VM_RELAY_ACCOUNT@);
        assert(s@[2].deep_view() =~= relay.name@);
        assert(s@[3].deep_view() =~= vm_key@);
    }
    let id = ID;
    check_seeds(&relay_info.key, s, relay.bump, &id)?;
    let same = crate::bytes::bytes_eq(relay.vm.as_slice(), vm_key.as_slice());
    proof {
        if same {
            crate::codec::lemma_array_ext(relay.vm, *vm_key);
        }
    }
    check_condition(same)?;
    check_condition(relay.num_levels as usize == RELAY_STATE_DEPTH)?;
    Ok(relay)
}

/// `load_relay`, keeping only whether it succeeded.
pub fn check_relay(relay_info: &AccountView, data: &[u8], vm_key: &Pubkey) -> (r: Result<(), ProgramError>)
    ensures
        load_error(*relay_info, data@, AccountType::RelayAccount, 5280) matches Some(e) ==> r == Err::<
            (),
            ProgramError,
        >(e),
        load_error(*relay_info, data@, AccountType::RelayAccount, 5280) is None ==> (r is Ok <==> (exists|
            rl: RelayAccount,
        | rl.spec_bytes() == data@.subrange(8, 5280) && derives(relay_info.key@, relay_seeds(rl, vm_key@), rl.bump, ID@)
            && rl.vm == *vm_key && rl.num_levels == RELAY_STATE_DEPTH)),
{
    load_relay(relay_info, data, vm_key)?;
    Ok(())
}

/// `key` and `bump` pass the seeds check exactly when they are what the
/// bump search over the same seeds finds.
proof fn lemma_derives_iff_found(seeds: Seq<Seq<u8>>, key: Pubkey, bump: u8, found: Option<(Pubkey, u8)>)
    requires
        finds(found, seeds, ID@),
    ensures
        derives(key@, seeds, bump, ID@) <==> found == Some((key, bump)),
{
    match found {
        Some((a, b)) => {
            if derives(key@, seeds, bump, ID@) {
                lemma_found_unique(seeds, ID@, a@, b, key@, bump);
                crate::codec::lemma_array_ext(a, key);
            }
        },
        None => {
            if derives(key@, seeds, bump, ID@) {
                assert(program_address(seeds.push(seq![bump]), ID@) is None);
            }
        },
    }
}

/// A VM account loads exactly at the address and with the bump that
/// `find_vm_pda` finds for its mint, authority and lock duration.
pub proof fn lemma_vm_loads_at_found_address(vm: CodeVmAccount, key: Pubkey, found: Option<(Pubkey, u8)>)
    requires
        finds(found, seq![CODE_VM@, vm.mint@, vm.authority@, seq![vm.lock_duration]], ID@),
    ensures
        derives(key@, vm_seeds(vm), vm.bump, ID@) <==> found == Some((key, vm.bump)),
{
    lemma_derives_iff_found(vm_seeds(vm), key, vm.bump, found);
}

/// A memory account of the VM at `vm_key` loads exactly at the address and
/// with the bump that `find_vm_memory_pda` finds for the VM and its name.
pub proof fn lemma_memory_loads_at_found_address(
    memory: MemoryAccount,
    vm_key: Pubkey,
    key: Pubkey,
    found: Option<(Pubkey, u8)>,
)
    requires
        finds(found, seq![CODE_VM@, VM_MEMORY_ACCOUNT@, memory.name@, vm_key@], ID@),
    ensures
        derives(key@, memory_seeds(memory, vm_key@), memory.bump, ID@) <==> found == Some((key, memory.bump)),
{
    lemma_derives_iff_found(memory_seeds(memory, vm_key@), key, memory.bump, found);
}

/// A storage account of the VM at `vm_key` loads exactly at the address and
/// with the bump that `find_vm_storage_pda` finds for the VM and its name.
pub proof fn lemma_storage_loads_at_found_address(
    storage: StorageAccount,
    vm_key: Pubkey,
    key: Pubkey,
    found: Option<(Pubkey, u8)>,
)
    requires
        finds(found, seq![CODE_VM@, VM_STORAGE_ACCOUNT@, storage.name@, vm_key@], ID@),
    ensures
        derives(key@, storage_seeds(storage, vm_key@), storage.bump, ID@) <==> found == Some((key, storage.bump)),
{
    lemma_derives_iff_found(storage_seeds(storage, vm_key@), key, storage.bump, found);
}

/// A relay of the VM at `vm_key` loads exactly at the address and with the
/// bump that `find_vm_relay_pda` finds for the VM and its name.
pub proof fn lemma_relay_loads_at_found_address(
    relay: RelayAccount,
    vm_key: Pubkey,
    key: Pubkey,
    found: Option<(Pubkey, u8)>,
)
    requires
        finds(found, seq![CODE_VM@, VM_RELAY_ACCOUNT@, relay.name@, vm_key@], ID@),
    ensures
        derives(key@, relay_seeds(relay, vm_key@), relay.bump, ID@) <==> found == Some((key, relay.bump)),
{
    lemma_derives_iff_found(relay_seeds(relay, vm_key@), key, relay.bump, found);
}

/// Appends `leaf` to the storage tree.
pub fn try_compress(storage: &mut MerkleTree<24>, leaf: hash::Hash) -> (r: Result<(), ProgramError>)
    ensures
        r is Ok <==> has_room(old(storage).next_index, 24),
        r is Ok ==> old(storage).inserted(*final(storage), leaf_of(leaf@)),
        r is Err ==> *final(storage) == *old(storage),
{
    storage.try_insert(leaf)
}

/// Empties the position of `leaf` in the storage tree.
pub fn try_decompress(storage: &mut MerkleTree<24>, leaf: hash::Hash, proof: &[hash::Hash]) -> (r: Result<
    (),
    ProgramError,
>)
    ensures
        r is Ok <==> old(storage).holds_leaf(hviews(proof@), leaf_of(leaf@)),
        r is Ok ==> old(storage).replaced(
            *final(storage),
            hviews(proof@),
            leaf_of(leaf@),
            old(storage).zero_values[0]@,
        ),
        r is Err ==> *final(storage) == *old(storage),
{
    storage.try_remove(proof, leaf)
}

/// The slot count a memory header records.
pub open spec fn header_capacity(h: Seq<u8>) -> nat {
    if h[73] == 0 {
        NUM_ACCOUNTS as nat
    } else {
        spec_u32_from_le_bytes(h.subrange(76, 80)) as nat
    }
}

/// The slot size a memory header records.
pub open spec fn header_slot_size(h: Seq<u8>) -> nat {
    if h[73] == 0 {
        legacy_account_size(h[79])
    } else {
        spec_u16_from_le_bytes(h.subrange(74, 76)) as nat
    }
}

/// A memory header the program can read, whose slots' size fits a `usize`.
pub open spec fn header_valid(h: Seq<u8>) -> bool {
    &&& h.len() >= 80
    &&& h[0] == AccountType::MemoryAccount.code()
    &&& h[73] <= 1
    &&& h[73] == 0 ==> 1 <= h[79] <= 3
    &&& header_capacity(h) * header_slot_size(h) + header_capacity(h) <= usize::MAX
}

/// The slots hold the state bytes and every slot.
pub open spec fn slots_fit(h: Seq<u8>, s: Seq<u8>) -> bool {
    s.len() >= header_capacity(h) + header_capacity(h) * header_slot_size(h)
}

/// The bytes of slot `i`.
pub open spec fn slot_of(h: Seq<u8>, s: Seq<u8>, i: int) -> Seq<u8> {
    let n = header_capacity(h) as int;
    let m = header_slot_size(h) as int;
    s.subrange(n + i * m, n + i * m + m)
}

/// The slots after writing `p` into slot `i`: a free slot becomes used,
/// and `p` covers the front of the slot.
pub open spec fn written(h: Seq<u8>, s: Seq<u8>, i: int, p: Seq<u8>) -> Seq<u8> {
    let n = header_capacity(h) as int;
    let m = header_slot_size(h) as int;
    let states = if s[i] == ITEM_FREE {
        s.take(n).update(i, ITEM_USED)
    } else {
        s.take(n)
    };
    states + (s.subrange(n, n + i * m) + p + s.skip(n + i * m + p.len()))
}

/// The slot count and size that a memory header records are those of the
/// memory account whose bytes it holds after the discriminator.
pub proof fn lemma_header_is_memory_account(h: Seq<u8>, m: MemoryAccount)
    requires
        h.len() >= 80,
        m.spec_bytes() == h.subrange(8, 80),
    ensures
        header_capacity(h) == m.spec_capacity(),
        header_slot_size(h) == m.spec_account_size(),
{
    m.lemma_field_offsets();
    assert(h[73] == m.spec_bytes()[65]);
    assert(m.packed_info@ == m.spec_bytes().subrange(66, 72));
    assert(h.subrange(76, 80) =~= m.packed_info@.subrange(2, 6));
    assert(h.subrange(74, 76) =~= m.packed_info@.subrange(0, 2));
    assert(h[79] == m.packed_info@[5]);
}

/// Slot `i` of a memory account's data is item `i` of the slice allocator
/// laid over the same bytes: one state byte per slot first, then the slots
/// side by side, each of the recorded size.
pub proof fn lemma_slot_is_allocator_item(h: Seq<u8>, s: Seq<u8>, a: SliceAllocator, i: int)
    requires
        slots_fit(h, s),
        a.state@ == s.take(header_capacity(h) as int),
        a.data@ == s.skip(header_capacity(h) as int),
        a.item_size == header_slot_size(h),
        0 <= i < header_capacity(h),
        s[i] != ITEM_FREE,
    ensures
        a.spec_read(i) == Some(slot_of(h, s, i)),
{
    let n = header_capacity(h) as int;
    let m = header_slot_size(h) as int;
    lemma_slot_fits(n, m, i);
    assert(a.data@.subrange(i * m, i * m + m) =~= s.subrange(n + i * m, n + i * m + m));
}

proof fn lemma_slot_fits(n: int, m: int, i: int)
    requires
        0 <= i < n,
        0 <= m,
    ensures
        n + i * m + m <= n + n * m,
        0 <= i * m,
{
    assert(i * m + m <= n * m) by (nonlinear_arith)
        requires
            0 <= i < n,
            0 <= m,
    ;
    assert(0 <= i * m) by (nonlinear_arith)
        requires
            0 <= i,
            0 <= m,
    ;
}

/// Fails with `InvalidArgument` where the slots are too short or slot
/// `account_index` is not free.
pub fn check_is_empty(header: &[u8], slots: &[u8], account_index: u16) -> (r: Result<(), ProgramError>)
    requires
        header_valid(header@),
        slots_fit(header@, slots@) ==> account_index < header_capacity(header@),
    ensures
        !slots_fit(header@, slots@) ==> r == Err::<(), ProgramError>(ProgramError::InvalidArgument),
        slots_fit(header@, slots@) ==> (r is Ok <==> slots@[account_index as int] == ITEM_FREE),
        r is Err ==> r == Err::<(), ProgramError>(ProgramError::InvalidArgument),
{
    let (n, m) = MemoryAccount::get_capacity_and_size(header);
    let mem = SliceAllocator::try_from_slice(slots, n, m)?;
    check_condition(mem.is_empty(account_index))
}

/// Reads the virtual account in slot `account_index`: refused with
/// `InvalidArgument` where the slots are too short or the slot is not in
/// use, and as `VirtualAccount::unpack` refuses the slot's bytes.
pub fn try_read(header: &[u8], slots: &[u8], account_index: u16) -> (r: Result<VirtualAccount, ProgramError>)
    requires
        header_valid(header@),
        slots_fit(header@, slots@) ==> account_index < header_capacity(header@),
    ensures
        !slots_fit(header@, slots@) ==> r == Err::<VirtualAccount, ProgramError>(ProgramError::InvalidArgument),
        slots_fit(header@, slots@) && slots@[account_index as int] != ITEM_USED ==> r == Err::<
            VirtualAccount,
            ProgramError,
        >(ProgramError::InvalidArgument),
        slots_fit(header@, slots@) && slots@[account_index as int] == ITEM_USED ==> ({
            let slot = slot_of(header@, slots@, account_index as int);
            &&& slot.len() < 1 ==> r == Err::<VirtualAccount, ProgramError>(ProgramError::InvalidAccountData)
            &&& slot.len() >= 1 && slot[0] > 2 ==> r == Err::<VirtualAccount, ProgramError>(
                ProgramError::InvalidAccountData,
            )
            &&& slot.len() >= 1 && slot[0] <= 2 && slot.len() < 1 + variant_size(slot[0]) ==> r == Err::<
                VirtualAccount,
                ProgramError,
            >(ProgramError::InvalidAccountData)
            &&& slot.len() >= 1 && slot[0] <= 2 && slot.len() >= 1 + variant_size(slot[0]) ==> (r matches Ok(
                x,
            ) && x.tag() == slot[0] && x.spec_bytes() == slot.take(1 + variant_size(slot[0]) as int))
        }),
{
    let (n, m) = MemoryAccount::get_capacity_and_size(header);
    let mem = SliceAllocator::try_from_slice(slots, n, m)?;
    check_condition(mem.has_item(account_index))?;
    let account = mem.read_item(account_index);
    proof {
        lemma_slot_fits(n as int, m as int, account_index as int);
        assert(mem.data@.subrange(account_index * m, account_index * m + m) =~= slot_of(
            header@,
            slots@,
            account_index as int,
        ));
    }
    match account {
        Some(bytes) => VirtualAccount::unpack(bytes.as_slice()),
        None => Err(ProgramError::InvalidArgument),
    }
}

/// Writes `account` packed into slot `account_index`, marking a free slot
/// used; refused with `InvalidArgument`, the slots unchanged, where they
/// are too short or the packed account is longer than a slot.
pub fn try_write(header: &[u8], slots: &mut [u8], account_index: u16, account: &VirtualAccount) -> (r:
    Result<(), ProgramError>)
    requires
        header_valid(header@),
        slots_fit(header@, old(slots)@) ==> account_index < header_capacity(header@),
    ensures
        !slots_fit(header@, old(slots)@) ==> r == Err::<(), ProgramError>(ProgramError::InvalidArgument)
            && final(slots)@ == old(slots)@,
        slots_fit(header@, old(slots)@) && account.spec_size() > header_slot_size(header@) ==> r == Err::<
            (),
            ProgramError,
        >(ProgramError::InvalidArgument) && final(slots)@ == old(slots)@,
        slots_fit(header@, old(slots)@) && account.spec_size() <= header_slot_size(header@) ==> r is Ok
            && final(slots)@ == written(header@, old(slots)@, account_index as int, account.spec_bytes()),
{
    let (n, m) = MemoryAccount::get_capacity_and_size(header);
    let ghost s0 = slots@;
    if slots.len() < n + n * m {
        return Err(ProgramError::InvalidArgument);
    }
    let data = account.pack();
    proof {
        lemma_slot_fits(n as int, m as int, account_index as int);
    }
    let i = account_index as usize;
    if data.len() > m {
        return Err(ProgramError::InvalidArgument);
    }
    if slots[i] == ITEM_FREE {
        slots[i] = ITEM_USED;
    }
    let ghost s1 = slots@;
    let start = n + i * m;
    let mut k: usize = 0;
    while k < data.len()
        invariant
            k <= data@.len(),
            data@.len() <= m,
            start == n + i * m,
            start + m <= slots@.len(),
            slots@.len() == s1.len(),
            slots@.len() == slots.len(),
            slots@ == s1.take(start as int) + data@.take(k as int) + s1.skip(start + k),
        decreases data@.len() - k,
    {
        slots[start + k] = data[k];
        k = k + 1;
        assert(slots@ =~= s1.take(start as int) + data@.take(k as int) + s1.skip(start + k));
    }
    proof {
        let p = account.spec_bytes();
        assert(data@.take(k as int) =~= p);
        assert(slots@ =~= written(header@, s0, i as int, p));
    }
    Ok(())
}

/// Frees slot `account_index` where it is in use; refused with
/// `InvalidArgument`, the slots unchanged, where they are too short.
pub fn try_delete(header: &[u8], slots: &mut [u8], account_index: u16) -> (r: Result<(), ProgramError>)
    requires
        header_valid(header@),
        slots_fit(header@, old(slots)@) ==> account_index < header_capacity(header@),
    ensures
        !slots_fit(header@, old(slots)@) ==> r == Err::<(), ProgramError>(ProgramError::InvalidArgument)
            && final(slots)@ == old(slots)@,
        slots_fit(header@, old(slots)@) ==> r is Ok && final(slots)@ == (if old(slots)@[account_index as int]
            == ITEM_USED {
            old(slots)@.update(account_index as int, ITEM_FREE)
        } else {
            old(slots)@
        }),
{
    let (n, m) = MemoryAccount::get_capacity_and_size(header);
    if slots.len() < n + n * m {
        return Err(ProgramError::InvalidArgument);
    }
    let i = account_index as usize;
    if slots[i] == ITEM_USED {
        slots[i] = ITEM_FREE;
    }
    Ok(())
}

/// What `try_write` puts in a free or used slot, `try_read` reads back:
/// the slot is in use and holds the packed account at its front.
pub proof fn lemma_write_then_read(h: Seq<u8>, s: Seq<u8>, i: int, account: VirtualAccount, x: VirtualAccount)
    requires
        header_valid(h),
        slots_fit(h, s),
        0 <= i < header_capacity(h),
        account.spec_size() <= header_slot_size(h),
        s[i] == ITEM_FREE || s[i] == ITEM_USED,
    ensures
        ({
            let s2 = written(h, s, i, account.spec_bytes());
            let slot = slot_of(h, s2, i);
            &&& slots_fit(h, s2)
            &&& s2[i] == ITEM_USED
            &&& slot.len() >= 1 && slot[0] == account.tag() && slot[0] <= 2
            &&& slot.len() >= 1 + variant_size(slot[0])
            &&& x.spec_bytes() == slot.take(1 + variant_size(slot[0]) as int) ==> x == account
        }),
{
    let n = header_capacity(h) as int;
    let m = header_slot_size(h) as int;
    let p = account.spec_bytes();
    account.lemma_pack_unpack(x);
    lemma_slot_fits(n, m, i);
    let s2 = written(h, s, i, p);
    assert(s2.len() == s.len());
    let slot = slot_of(h, s2, i);
    assert(slot.take(p.len() as int) =~= p);
    assert(slot[0] == p[0]);
}

} // verus!
