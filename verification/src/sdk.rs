//! Client-side builders of the VM program's instructions: the program id,
//! the accounts in the order the program reads them, and the data. Where
//! an address must be found and none exists, the builder gives `None`.
use vstd::prelude::*;

use crate::codec::{enc_bytes, enc_u16, enc_u32, enc_u64, enc_vec_u16};
use crate::consts::{
    CODE_VM, ID, VM_MEMORY_ACCOUNT, VM_OMNIBUS, VM_RELAY_ACCOUNT, VM_RELAY_VAULT,
    VM_STORAGE_ACCOUNT,
};
use crate::helpers::create_name;
use crate::cvm::state::relay::RelayAccount;
use crate::cvm::state::vm::CodeVmAccount;
use crate::instruction::{
    CodeInstruction, CompressIx, DecompressIx, DecompressIxData, DepositIx, ExecIx, ExecIxData,
    InitMemoryIx, InitNonceIx, InitRelayIx, InitStorageIx, InitTimelockIx, InitUnlockIx, InitVmIx,
    ParsedCompressIx, ParsedDepositIx, ParsedInitMemoryIx, ParsedInitNonceIx,
    ParsedInitTimelockIx, ParsedResizeMemoryIx, ResizeMemoryIx, SnapshotIx, UnlockIx, WithdrawIx,
    WithdrawIxData,
};
use crate::pdas::{
    find_vm_memory_pda, find_vm_omnibus_pda, find_vm_pda, find_vm_relay_pda,
    find_vm_relay_vault_pda, find_vm_storage_pda, finds, found_address, lemma_found_unique, no_address,
};
use crate::types::hash;
use crate::types::signature::Signature;
use crate::types::Pubkey;
use vstd::utf8::encode_utf8;

verus! {

/// The SPL token program's address.
pub const TOKEN_PROGRAM_ID: [u8; 32] = [
    6, 221, 246, 225, 215, 101, 161, 147, 217, 203, 225, 70, 206, 235, 121, 172,
    28, 180, 133, 237, 95, 91, 55, 145, 58, 140, 245, 133, 126, 255, 0, 169,
];

/// The system program's address.
pub const SYSTEM_PROGRAM_ID: [u8; 32] = [
    0, 0, 0, 0, 0, 0, 0, 0, 0, 0, 0, 0, 0, 0, 0, 0,
    0, 0, 0, 0, 0, 0, 0, 0, 0, 0, 0, 0, 0, 0, 0, 0,
];

/// The sysvar program's address: the owner of every sysvar account.
pub const SYSVAR_ID: [u8; 32] = [
    6, 167, 213, 23, 24, 117, 247, 41, 199, 61, 147, 64, 143, 33, 97, 32,
    6, 126, 216, 140, 118, 224, 140, 40, 127, 193, 148, 96, 0, 0, 0, 0,
];

/// The rent sysvar's address.
pub const RENT_SYSVAR_ID: [u8; 32] = [
    6, 167, 213, 23, 25, 44, 92, 81, 33, 140, 201, 76, 61, 74, 241, 127,
    88, 218, 238, 8, 155, 161, 253, 68, 227, 219, 217, 138, 0, 0, 0, 0,
];

/// An account an instruction reads, and how.
#[derive(Clone, Copy, Debug, PartialEq, Eq)]
pub struct AccountMeta {
    pub pubkey: Pubkey,
    pub is_signer: bool,
    pub is_writable: bool,
}

impl AccountMeta {
    pub fn new(pubkey: Pubkey, is_signer: bool) -> (r: AccountMeta)
        ensures
            r == (AccountMeta { pubkey, is_signer, is_writable: true }),
    {
        AccountMeta { pubkey, is_signer, is_writable: true }
    }

    pub fn new_readonly(pubkey: Pubkey, is_signer: bool) -> (r: AccountMeta)
        ensures
            r == (AccountMeta { pubkey, is_signer, is_writable: false }),
    {
        AccountMeta { pubkey, is_signer, is_writable: false }
    }
}

/// An instruction: the program, its accounts and its data.
#[derive(Clone, Debug, PartialEq, Eq)]
pub struct Instruction {
    pub program_id: Pubkey,
    pub accounts: Vec<AccountMeta>,
    pub data: Vec<u8>,
}

pub open spec fn meta(pubkey: Pubkey, is_signer: bool, is_writable: bool) -> AccountMeta {
    AccountMeta { pubkey, is_signer, is_writable }
}

/// A writable account that may be absent; the program's own id stands in
/// for an absent one.
pub open spec fn opt_meta(account: Option<Pubkey>, is_signer: bool) -> AccountMeta {
    match account {
        Some(a) => meta(a, is_signer, true),
        None => meta(ID, is_signer, true),
    }
}

/// A read-only account that may be absent.
pub open spec fn opt_readonly_meta(account: Option<Pubkey>, is_signer: bool) -> AccountMeta {
    match account {
        Some(a) => meta(a, is_signer, false),
        None => meta(ID, is_signer, false),
    }
}

/// The key an optional account is passed under: its own, or the program id
/// where it is absent.
pub open spec fn key_or_id(account: Option<Pubkey>) -> Pubkey {
    match account {
        Some(a) => a,
        None => ID,
    }
}

/// An optional account is passed writable, present or absent, and a
/// read-only one never writable; a present one under its own key, an absent
/// one as the program id; the signer flag is the caller's.
pub proof fn lemma_optional_metas(account: Option<Pubkey>, is_signer: bool)
    ensures
        opt_meta(account, is_signer).is_writable,
        !opt_readonly_meta(account, is_signer).is_writable,
        opt_meta(account, is_signer).is_signer == is_signer,
        opt_readonly_meta(account, is_signer).is_signer == is_signer,
        account matches Some(a) ==> opt_meta(account, is_signer).pubkey == a && opt_readonly_meta(
            account,
            is_signer,
        ).pubkey == a,
        account is None ==> opt_meta(account, is_signer).pubkey == ID && opt_readonly_meta(account, is_signer).pubkey
            == ID,
{
}

/// A name as the 32-byte field accounts hold.
pub open spec fn name_field(name: Seq<char>) -> Seq<u8> {
    encode_utf8(name) + Seq::new((32 - encode_utf8(name).len()) as nat, |i: int| 0u8)
}

/// A writable account that may be absent; the program's own id stands in
/// for an absent one.
pub fn optional_meta(account: Option<Pubkey>, is_signer: bool) -> (r: AccountMeta)
    ensures
        r == opt_meta(account, is_signer),
{
    match account {
        Some(account) => AccountMeta::new(account, is_signer),
        None => AccountMeta::new(ID, is_signer),
    }
}

/// A read-only account that may be absent.
pub fn optional_readonly_meta(account: Option<Pubkey>, is_signer: bool) -> (r: AccountMeta)
    ensures
        r == opt_readonly_meta(account, is_signer),
{
    match account {
        Some(account) => AccountMeta::new_readonly(account, is_signer),
        None => AccountMeta::new_readonly(ID, is_signer),
    }
}


/// Grows a memory account to `account_size` bytes per slot.
pub fn vm_memory_resize(vm_authority: Pubkey, vm: Pubkey, vm_memory: Pubkey, account_size: u32) -> (r: Instruction)
    ensures
        r.program_id == ID,
        r.accounts@ == seq![meta(vm_authority, true, true), meta(vm, false, true), meta(vm_memory, false, true), meta(SYSTEM_PROGRAM_ID, false, false), meta(RENT_SYSVAR_ID, false, false)],
        r.data@ == seq![CodeInstruction::ResizeMemoryIx.code()] + enc_u32(account_size),
{
    let mut accounts: Vec<AccountMeta> = Vec::new();
    accounts.push(AccountMeta::new(vm_authority, true));
    accounts.push(AccountMeta::new(vm, false));
    accounts.push(AccountMeta::new(vm_memory, false));
    accounts.push(AccountMeta::new_readonly(SYSTEM_PROGRAM_ID, false));
    accounts.push(AccountMeta::new_readonly(RENT_SYSVAR_ID, false));
    let data = ResizeMemoryIx::from_struct(ParsedResizeMemoryIx { account_size }).to_bytes();
    let ix = Instruction { program_id: ID, accounts, data };
    assert(ix.accounts@ =~= seq![meta(vm_authority, true, true), meta(vm, false, true), meta(vm_memory, false, true), meta(SYSTEM_PROGRAM_ID, false, false), meta(RENT_SYSVAR_ID, false, false)]);
    ix
}

/// Creates a virtual durable nonce in slot `account_index`.
pub fn system_nonce_init(vm_authority: Pubkey, vm: Pubkey, vm_memory: Pubkey, virtual_account_owner: Pubkey, account_index: u16) -> (r: Instruction)
    ensures
        r.program_id == ID,
        r.accounts@ == seq![meta(vm_authority, true, true), meta(vm, false, true), meta(vm_memory, false, true), meta(virtual_account_owner, false, false)],
        r.data@ == seq![CodeInstruction::InitNonceIx.code()] + enc_u16(account_index),
{
    let mut accounts: Vec<AccountMeta> = Vec::new();
    accounts.push(AccountMeta::new(vm_authority, true));
    accounts.push(AccountMeta::new(vm, false));
    accounts.push(AccountMeta::new(vm_memory, false));
    accounts.push(AccountMeta::new_readonly(virtual_account_owner, false));
    let data = InitNonceIx::from_struct(ParsedInitNonceIx { account_index }).to_bytes();
    let ix = Instruction { program_id: ID, accounts, data };
    assert(ix.accounts@ =~= seq![meta(vm_authority, true, true), meta(vm, false, true), meta(vm_memory, false, true), meta(virtual_account_owner, false, false)]);
    ix
}

/// Creates a virtual timelock account in slot `account_index`.
pub fn system_timelock_init(vm_authority: Pubkey, vm: Pubkey, vm_memory: Pubkey, virtual_account_owner: Pubkey, account_index: u16, virtual_timelock_bump: u8, virtual_vault_bump: u8, unlock_pda_bump: u8) -> (r: Instruction)
    ensures
        r.program_id == ID,
        r.accounts@ == seq![meta(vm_authority, true, true), meta(vm, false, true), meta(vm_memory, false, true), meta(virtual_account_owner, false, false)],
        r.data@ == seq![CodeInstruction::InitTimelockIx.code()] + enc_u16(account_index) + seq![virtual_timelock_bump, virtual_vault_bump, unlock_pda_bump],
{
    let mut accounts: Vec<AccountMeta> = Vec::new();
    accounts.push(AccountMeta::new(vm_authority, true));
    accounts.push(AccountMeta::new(vm, false));
    accounts.push(AccountMeta::new(vm_memory, false));
    accounts.push(AccountMeta::new_readonly(virtual_account_owner, false));
    let data = InitTimelockIx::from_struct(ParsedInitTimelockIx { account_index, virtual_timelock_bump, virtual_vault_bump, unlock_pda_bump }).to_bytes();
    let ix = Instruction { program_id: ID, accounts, data };
    assert(ix.accounts@ =~= seq![meta(vm_authority, true, true), meta(vm, false, true), meta(vm_memory, false, true), meta(virtual_account_owner, false, false)]);
    ix
}

/// Moves the account in slot `account_index` into storage.
pub fn system_account_compress(vm_authority: Pubkey, vm: Pubkey, vm_memory: Pubkey, vm_storage: Pubkey, account_index: u16, signature: Signature) -> (r: Instruction)
    ensures
        r.program_id == ID,
        r.accounts@ == seq![meta(vm_authority, true, true), meta(vm, false, true), meta(vm_memory, false, true), meta(vm_storage, false, true)],
        r.data@ == seq![CodeInstruction::CompressIx.code()] + enc_u16(account_index) + signature@,
{
    let mut accounts: Vec<AccountMeta> = Vec::new();
    accounts.push(AccountMeta::new(vm_authority, true));
    accounts.push(AccountMeta::new(vm, false));
    accounts.push(AccountMeta::new(vm_memory, false));
    accounts.push(AccountMeta::new(vm_storage, false));
    let data = CompressIx::from_struct(ParsedCompressIx { account_index, signature }).to_bytes();
    let ix = Instruction { program_id: ID, accounts, data };
    assert(ix.accounts@ =~= seq![meta(vm_authority, true, true), meta(vm, false, true), meta(vm_memory, false, true), meta(vm_storage, false, true)]);
    ix
}

/// Moves a stored account back into slot `account_index`.
pub fn system_account_decompress(vm_authority: Pubkey, vm: Pubkey, vm_memory: Pubkey, vm_storage: Pubkey, unlock_pda: Option<Pubkey>, withdraw_receipt: Option<Pubkey>, account_index: u16, packed_va: Vec<u8>, proof: Vec<hash::Hash>, signature: Signature) -> (r: Instruction)
    requires
        packed_va@.len() <= u32::MAX,
        proof@.len() <= u32::MAX,
    ensures
        r.program_id == ID,
        r.accounts@ == seq![meta(vm_authority, true, true), meta(vm, false, true), meta(vm_memory, false, true), meta(vm_storage, false, true), opt_meta(unlock_pda, false), opt_meta(withdraw_receipt, false)],
        r.accounts@.len() == 6,
        forall|i: int| 0 <= i < 6 ==> (#[trigger] r.accounts@[i]).is_writable && (r.accounts@[i].is_signer <==> i == 0),
        r.accounts@[4].pubkey == key_or_id(unlock_pda),
        r.accounts@[5].pubkey == key_or_id(withdraw_receipt),
        r.data@ == seq![CodeInstruction::DecompressIx.code()] + (DecompressIxData { account_index, packed_va, proof, signature }).spec_bytes(),
{
    let args = DecompressIxData { account_index, packed_va, proof, signature };
    let mut accounts: Vec<AccountMeta> = Vec::new();
    accounts.push(AccountMeta::new(vm_authority, true));
    accounts.push(AccountMeta::new(vm, false));
    accounts.push(AccountMeta::new(vm_memory, false));
    accounts.push(AccountMeta::new(vm_storage, false));
    accounts.push(optional_meta(unlock_pda, false));
    accounts.push(optional_meta(withdraw_receipt, false));
    let data = match DecompressIx::try_to_bytes(args) { Ok(d) => d, Err(_) => Vec::new() };
    let ix = Instruction { program_id: ID, accounts, data };
    assert(ix.accounts@ =~= seq![meta(vm_authority, true, true), meta(vm, false, true), meta(vm_memory, false, true), meta(vm_storage, false, true), opt_meta(unlock_pda, false), opt_meta(withdraw_receipt, false)]);
    ix
}

/// Executes an operation on virtual accounts; absent accounts stand as the program id.
pub fn vm_exec(vm_authority: Pubkey, vm: Pubkey, mem_a: Option<Pubkey>, mem_b: Option<Pubkey>, mem_c: Option<Pubkey>, mem_d: Option<Pubkey>, vm_omnibus: Option<Pubkey>, relay: Option<Pubkey>, relay_vault: Option<Pubkey>, external_address: Option<Pubkey>, token_program: Option<Pubkey>, opcode: u8, mem_indicies: Vec<u16>, mem_banks: Vec<u8>, data: Vec<u8>) -> (r: Instruction)
    requires
        mem_indicies@.len() <= u32::MAX,
        mem_banks@.len() <= u32::MAX,
        data@.len() <= u32::MAX,
    ensures
        r.program_id == ID,
        r.accounts@ == seq![meta(vm_authority, true, true), meta(vm, false, true), opt_meta(mem_a, false), opt_meta(mem_b, false), opt_meta(mem_c, false), opt_meta(mem_d, false), opt_meta(vm_omnibus, false), opt_meta(relay, false), opt_meta(relay_vault, false), opt_meta(external_address, false), opt_readonly_meta(token_program, false)],
        r.accounts@.len() == 11,
        forall|i: int| 0 <= i < 10 ==> (#[trigger] r.accounts@[i]).is_writable && (r.accounts@[i].is_signer <==> i == 0),
        !r.accounts@[10].is_writable && !r.accounts@[10].is_signer,
        r.accounts@[2].pubkey == key_or_id(mem_a),
        r.accounts@[3].pubkey == key_or_id(mem_b),
        r.accounts@[4].pubkey == key_or_id(mem_c),
        r.accounts@[5].pubkey == key_or_id(mem_d),
        r.accounts@[6].pubkey == key_or_id(vm_omnibus),
        r.accounts@[7].pubkey == key_or_id(relay),
        r.accounts@[8].pubkey == key_or_id(relay_vault),
        r.accounts@[9].pubkey == key_or_id(external_address),
        r.accounts@[10].pubkey == key_or_id(token_program),
        r.data@ == seq![CodeInstruction::ExecIx.code(), opcode] + enc_vec_u16(mem_indicies@) + enc_bytes(mem_banks@) + enc_bytes(data@),
{
    let args = ExecIxData { opcode, mem_indicies, mem_banks, data };
    let mut accounts: Vec<AccountMeta> = Vec::new();
    accounts.push(AccountMeta::new(vm_authority, true));
    accounts.push(AccountMeta::new(vm, false));
    accounts.push(optional_meta(mem_a, false));
    accounts.push(optional_meta(mem_b, false));
    accounts.push(optional_meta(mem_c, false));
    accounts.push(optional_meta(mem_d, false));
    accounts.push(optional_meta(vm_omnibus, false));
    accounts.push(optional_meta(relay, false));
    accounts.push(optional_meta(relay_vault, false));
    accounts.push(optional_meta(external_address, false));
    accounts.push(optional_readonly_meta(token_program, false));
    let data = match ExecIx::try_to_bytes(args) { Ok(d) => d, Err(_) => Vec::new() };
    let ix = Instruction { program_id: ID, accounts, data };
    assert(ix.accounts@ =~= seq![meta(vm_authority, true, true), meta(vm, false, true), opt_meta(mem_a, false), opt_meta(mem_b, false), opt_meta(mem_c, false), opt_meta(mem_d, false), opt_meta(vm_omnibus, false), opt_meta(relay, false), opt_meta(relay_vault, false), opt_meta(external_address, false), opt_readonly_meta(token_program, false)]);
    ix
}

/// Saves the relay's current root among its recent roots.
pub fn relay_save_root(vm_authority: Pubkey, vm: Pubkey, relay: Pubkey) -> (r: Instruction)
    ensures
        r.program_id == ID,
        r.accounts@ == seq![meta(vm_authority, true, true), meta(vm, false, true), meta(relay, false, true)],
        r.data@ == seq![CodeInstruction::SnapshotIx.code()],
{
    let mut accounts: Vec<AccountMeta> = Vec::new();
    accounts.push(AccountMeta::new(vm_authority, true));
    accounts.push(AccountMeta::new(vm, false));
    accounts.push(AccountMeta::new(relay, false));
    let data = SnapshotIx {}.to_bytes();
    let ix = Instruction { program_id: ID, accounts, data };
    assert(ix.accounts@ =~= seq![meta(vm_authority, true, true), meta(vm, false, true), meta(relay, false, true)]);
    ix
}

/// Moves `amount` from a deposit account into the timelock account in slot `account_index`.
pub fn timelock_deposit_from_pda(vm_authority: Pubkey, vm: Pubkey, vm_memory: Pubkey, depositor: Pubkey, deposit_pda: Pubkey, deposit_ata: Pubkey, omnibus: Pubkey, account_index: u16, amount: u64, bump: u8) -> (r: Instruction)
    ensures
        r.program_id == ID,
        r.accounts@ == seq![meta(vm_authority, true, true), meta(vm, false, true), meta(vm_memory, false, true), meta(depositor, false, false), meta(deposit_pda, false, false), meta(deposit_ata, false, true), meta(omnibus, false, true), meta(TOKEN_PROGRAM_ID, false, false)],
        r.data@ == seq![CodeInstruction::DepositIx.code()] + enc_u16(account_index) + enc_u64(amount) + seq![bump],
{
    let mut accounts: Vec<AccountMeta> = Vec::new();
    accounts.push(AccountMeta::new(vm_authority, true));
    accounts.push(AccountMeta::new(vm, false));
    accounts.push(AccountMeta::new(vm_memory, false));
    accounts.push(AccountMeta::new_readonly(depositor, false));
    accounts.push(AccountMeta::new_readonly(deposit_pda, false));
    accounts.push(AccountMeta::new(deposit_ata, false));
    accounts.push(AccountMeta::new(omnibus, false));
    accounts.push(AccountMeta::new_readonly(TOKEN_PROGRAM_ID, false));
    let data = DepositIx::from_struct(ParsedDepositIx { account_index, amount, bump }).to_bytes();
    let ix = Instruction { program_id: ID, accounts, data };
    assert(ix.accounts@ =~= seq![meta(vm_authority, true, true), meta(vm, false, true), meta(vm_memory, false, true), meta(depositor, false, false), meta(deposit_pda, false, false), meta(deposit_ata, false, true), meta(omnibus, false, true), meta(TOKEN_PROGRAM_ID, false, false)]);
    ix
}

/// Starts the unlock of a timelock account.
pub fn timelock_unlock_init(account_owner: Pubkey, payer: Pubkey, vm: Pubkey, unlock_pda: Pubkey) -> (r: Instruction)
    ensures
        r.program_id == ID,
        r.accounts@ == seq![meta(account_owner, true, true), meta(payer, true, true), meta(vm, false, true), meta(unlock_pda, false, true), meta(SYSTEM_PROGRAM_ID, false, false), meta(RENT_SYSVAR_ID, false, false)],
        r.data@ == seq![CodeInstruction::InitUnlockIx.code()],
{
    let mut accounts: Vec<AccountMeta> = Vec::new();
    accounts.push(AccountMeta::new(account_owner, true));
    accounts.push(AccountMeta::new(payer, true));
    accounts.push(AccountMeta::new(vm, false));
    accounts.push(AccountMeta::new(unlock_pda, false));
    accounts.push(AccountMeta::new_readonly(SYSTEM_PROGRAM_ID, false));
    accounts.push(AccountMeta::new_readonly(RENT_SYSVAR_ID, false));
    let data = InitUnlockIx {}.to_bytes();
    let ix = Instruction { program_id: ID, accounts, data };
    assert(ix.accounts@ =~= seq![meta(account_owner, true, true), meta(payer, true, true), meta(vm, false, true), meta(unlock_pda, false, true), meta(SYSTEM_PROGRAM_ID, false, false), meta(RENT_SYSVAR_ID, false, false)]);
    ix
}

/// Completes the unlock of a timelock account.
pub fn timelock_unlock_finalize(account_owner: Pubkey, payer: Pubkey, vm: Pubkey, unlock_pda: Pubkey) -> (r: Instruction)
    ensures
        r.program_id == ID,
        r.accounts@ == seq![meta(account_owner, true, true), meta(payer, true, true), meta(vm, false, true), meta(unlock_pda, false, true)],
        r.data@ == seq![CodeInstruction::UnlockIx.code()],
{
    let mut accounts: Vec<AccountMeta> = Vec::new();
    accounts.push(AccountMeta::new(account_owner, true));
    accounts.push(AccountMeta::new(payer, true));
    accounts.push(AccountMeta::new(vm, false));
    accounts.push(AccountMeta::new(unlock_pda, false));
    let data = UnlockIx {}.to_bytes();
    let ix = Instruction { program_id: ID, accounts, data };
    assert(ix.accounts@ =~= seq![meta(account_owner, true, true), meta(payer, true, true), meta(vm, false, true), meta(unlock_pda, false, true)]);
    ix
}
/// The accounts of a withdrawal from a deposit account.
fn withdraw_from_deposit(
    depositor: Pubkey,
    payer: Pubkey,
    vm: Pubkey,
    deposit_pda: Option<Pubkey>,
    deposit_ata: Option<Pubkey>,
    unlock_pda: Pubkey,
    external_address: Pubkey,
) -> (r: Vec<AccountMeta>)
    ensures
        r@ == seq![
            meta(depositor, true, true),
            meta(payer, true, true),
            meta(vm, false, true),
            opt_meta(None, false),
            opt_meta(None, false),
            opt_meta(None, false),
            opt_meta(deposit_pda, false),
            opt_meta(deposit_ata, false),
            meta(unlock_pda, false, true),
            opt_meta(None, false),
            meta(external_address, false, true),
            meta(TOKEN_PROGRAM_ID, false, false),
            opt_meta(None, false),
            opt_meta(None, false),
        ],
{
    let mut v: Vec<AccountMeta> = Vec::new();
    v.push(AccountMeta::new(depositor, true));
    v.push(AccountMeta::new(payer, true));
    v.push(AccountMeta::new(vm, false));
    v.push(optional_meta(None, false));
    v.push(optional_meta(None, false));
    v.push(optional_meta(None, false));
    v.push(optional_meta(deposit_pda, false));
    v.push(optional_meta(deposit_ata, false));
    v.push(AccountMeta::new(unlock_pda, false));
    v.push(optional_meta(None, false));
    v.push(AccountMeta::new(external_address, false));
    v.push(AccountMeta::new_readonly(TOKEN_PROGRAM_ID, false));
    v.push(optional_meta(None, false));
    v.push(optional_meta(None, false));
    assert(v@ =~= seq![
        meta(depositor, true, true),
        meta(payer, true, true),
        meta(vm, false, true),
        opt_meta(None, false),
        opt_meta(None, false),
        opt_meta(None, false),
        opt_meta(deposit_pda, false),
        opt_meta(deposit_ata, false),
        meta(unlock_pda, false, true),
        opt_meta(None, false),
        meta(external_address, false, true),
        meta(TOKEN_PROGRAM_ID, false, false),
        opt_meta(None, false),
        opt_meta(None, false),
    ]);
    v
}

/// The accounts of a withdrawal from a virtual account in memory.
pub fn withdraw_from_memory(
    depositor: Pubkey,
    payer: Pubkey,
    vm: Pubkey,
    vm_omnibus: Option<Pubkey>,
    vm_memory: Option<Pubkey>,
    unlock_pda: Pubkey,
    withdraw_receipt: Option<Pubkey>,
    external_address: Pubkey,
) -> (r: Vec<AccountMeta>)
    ensures
        r@ == seq![
            meta(depositor, true, true),
            meta(payer, true, true),
            meta(vm, false, true),
            opt_meta(vm_omnibus, false),
            opt_meta(vm_memory, false),
            opt_meta(None, false),
            opt_meta(None, false),
            opt_meta(None, false),
            meta(unlock_pda, false, true),
            opt_meta(withdraw_receipt, false),
            meta(external_address, false, true),
            meta(TOKEN_PROGRAM_ID, false, false),
            opt_readonly_meta(Some(SYSTEM_PROGRAM_ID), false),
            opt_readonly_meta(Some(RENT_SYSVAR_ID), false),
        ],
{
    let mut v: Vec<AccountMeta> = Vec::new();
    v.push(AccountMeta::new(depositor, true));
    v.push(AccountMeta::new(payer, true));
    v.push(AccountMeta::new(vm, false));
    v.push(optional_meta(vm_omnibus, false));
    v.push(optional_meta(vm_memory, false));
    v.push(optional_meta(None, false));
    v.push(optional_meta(None, false));
    v.push(optional_meta(None, false));
    v.push(AccountMeta::new(unlock_pda, false));
    v.push(optional_meta(withdraw_receipt, false));
    v.push(AccountMeta::new(external_address, false));
    v.push(AccountMeta::new_readonly(TOKEN_PROGRAM_ID, false));
    v.push(optional_readonly_meta(Some(SYSTEM_PROGRAM_ID), false));
    v.push(optional_readonly_meta(Some(RENT_SYSVAR_ID), false));
    assert(v@ =~= seq![
        meta(depositor, true, true),
        meta(payer, true, true),
        meta(vm, false, true),
        opt_meta(vm_omnibus, false),
        opt_meta(vm_memory, false),
        opt_meta(None, false),
        opt_meta(None, false),
        opt_meta(None, false),
        meta(unlock_pda, false, true),
        opt_meta(withdraw_receipt, false),
        meta(external_address, false, true),
        meta(TOKEN_PROGRAM_ID, false, false),
        opt_readonly_meta(Some(SYSTEM_PROGRAM_ID), false),
        opt_readonly_meta(Some(RENT_SYSVAR_ID), false),
    ]);
    v
}

/// The accounts of a withdrawal from a virtual account in storage.
fn withdraw_from_storage(
    depositor: Pubkey,
    payer: Pubkey,
    vm: Pubkey,
    vm_omnibus: Option<Pubkey>,
    vm_storage: Option<Pubkey>,
    unlock_pda: Pubkey,
    withdraw_receipt: Option<Pubkey>,
    external_address: Pubkey,
) -> (r: Vec<AccountMeta>)
    ensures
        r@ == seq![
            meta(depositor, true, true),
            meta(payer, true, true),
            meta(vm, false, true),
            opt_meta(vm_omnibus, false),
            opt_meta(None, false),
            opt_meta(vm_storage, false),
            opt_meta(None, false),
            opt_meta(None, false),
            meta(unlock_pda, false, true),
            opt_meta(withdraw_receipt, false),
            meta(external_address, false, true),
            meta(TOKEN_PROGRAM_ID, false, false),
            opt_readonly_meta(Some(SYSTEM_PROGRAM_ID), false),
            opt_readonly_meta(Some(RENT_SYSVAR_ID), false),
        ],
{
    let mut v: Vec<AccountMeta> = Vec::new();
    v.push(AccountMeta::new(depositor, true));
    v.push(AccountMeta::new(payer, true));
    v.push(AccountMeta::new(vm, false));
    v.push(optional_meta(vm_omnibus, false));
    v.push(optional_meta(None, false));
    v.push(optional_meta(vm_storage, false));
    v.push(optional_meta(None, false));
    v.push(optional_meta(None, false));
    v.push(AccountMeta::new(unlock_pda, false));
    v.push(optional_meta(withdraw_receipt, false));
    v.push(AccountMeta::new(external_address, false));
    v.push(AccountMeta::new_readonly(TOKEN_PROGRAM_ID, false));
    v.push(optional_readonly_meta(Some(SYSTEM_PROGRAM_ID), false));
    v.push(optional_readonly_meta(Some(RENT_SYSVAR_ID), false));
    assert(v@ =~= seq![
        meta(depositor, true, true),
        meta(payer, true, true),
        meta(vm, false, true),
        opt_meta(vm_omnibus, false),
        opt_meta(None, false),
        opt_meta(vm_storage, false),
        opt_meta(None, false),
        opt_meta(None, false),
        meta(unlock_pda, false, true),
        opt_meta(withdraw_receipt, false),
        meta(external_address, false, true),
        meta(TOKEN_PROGRAM_ID, false, false),
        opt_readonly_meta(Some(SYSTEM_PROGRAM_ID), false),
        opt_readonly_meta(Some(RENT_SYSVAR_ID), false),
    ]);
    v
}

/// Withdraws a virtual account's tokens to `external_address`; the
/// accounts depend on where the funds come from.
pub fn timelock_withdraw(
    depositor: Pubkey,
    payer: Pubkey,
    vm: Pubkey,
    vm_omnibus: Option<Pubkey>,
    vm_memory: Option<Pubkey>,
    vm_storage: Option<Pubkey>,
    deposit_pda: Option<Pubkey>,
    deposit_ata: Option<Pubkey>,
    unlock_pda: Pubkey,
    withdraw_receipt: Option<Pubkey>,
    external_address: Pubkey,
    data: WithdrawIxData,
) -> (r: Instruction)
    requires
        data.serializable(),
    ensures
        r.program_id == ID,
        r.data@ == seq![CodeInstruction::WithdrawIx.code()] + data.spec_bytes(),
        r.accounts@.len() == 14,
        r.accounts@[0] == meta(depositor, true, true),
        r.accounts@[8] == meta(unlock_pda, false, true),
        r.accounts@[10] == meta(external_address, false, true),
        data is FromDeposit ==> r.accounts@[6] == opt_meta(deposit_pda, false) && r.accounts@[7]
            == opt_meta(deposit_ata, false),
        data is FromMemory ==> r.accounts@[3] == opt_meta(vm_omnibus, false) && r.accounts@[4]
            == opt_meta(vm_memory, false) && r.accounts@[9] == opt_meta(withdraw_receipt, false),
        data is FromStorage ==> r.accounts@[3] == opt_meta(vm_omnibus, false) && r.accounts@[5]
            == opt_meta(vm_storage, false) && r.accounts@[9] == opt_meta(withdraw_receipt, false),
{
    let accounts = match &data {
        WithdrawIxData::FromDeposit { .. } => withdraw_from_deposit(
            depositor,
            payer,
            vm,
            deposit_pda,
            deposit_ata,
            unlock_pda,
            external_address,
        ),
        WithdrawIxData::FromMemory { .. } => withdraw_from_memory(
            depositor,
            payer,
            vm,
            vm_omnibus,
            vm_memory,
            unlock_pda,
            withdraw_receipt,
            external_address,
        ),
        WithdrawIxData::FromStorage { .. } => withdraw_from_storage(
            depositor,
            payer,
            vm,
            vm_omnibus,
            vm_storage,
            unlock_pda,
            withdraw_receipt,
            external_address,
        ),
    };
    let ghost d = data;
    let bytes = match WithdrawIx::try_to_bytes(data) {
        Ok(b) => b,
        Err(_) => Vec::new(),
    };
    Instruction { program_id: ID, accounts, data: bytes }
}

/// The seeds of the VM of a mint, an authority and a lock duration.
pub open spec fn vm_seeds_of(mint: Pubkey, authority: Pubkey, lock_duration: u8) -> Seq<Seq<u8>> {
    seq![CODE_VM@, mint@, authority@, seq![lock_duration]]
}

/// Creates the VM of `mint` under `vm_authority`, and its omnibus vault.
pub fn vm_init(vm_authority: Pubkey, mint: Pubkey, lock_duration: u8) -> (r: Option<Instruction>)
    ensures
        r matches Some(ix) ==> exists|vm: Pubkey, vm_bump: u8, omnibus: Pubkey, omnibus_bump: u8|
            finds(Some((vm, vm_bump)), vm_seeds_of(mint, vm_authority, lock_duration), ID@) && finds(
                Some((omnibus, omnibus_bump)),
                seq![CODE_VM@, VM_OMNIBUS@, vm@],
                ID@,
            ) && ix.program_id == ID && ix.accounts@ == seq![
                meta(vm_authority, true, true),
                meta(vm, false, true),
                meta(omnibus, false, true),
                meta(mint, false, false),
                meta(TOKEN_PROGRAM_ID, false, false),
                meta(SYSTEM_PROGRAM_ID, false, false),
                meta(RENT_SYSVAR_ID, false, false),
            ] && ix.data@ == seq![CodeInstruction::InitVmIx.code(), lock_duration, vm_bump, omnibus_bump],
        no_address(vm_seeds_of(mint, vm_authority, lock_duration), ID@) ==> r is None,
        forall|v: Pubkey, b: u8|
            #[trigger] found_address(vm_seeds_of(mint, vm_authority, lock_duration), ID@, v@, b) ==> (r is None
                <==> no_address(seq![CODE_VM@, VM_OMNIBUS@, v@], ID@)),
{
    let ghost seeds = vm_seeds_of(mint, vm_authority, lock_duration);
    let (vm, vm_bump) = match find_vm_pda(&mint, &vm_authority, lock_duration) {
        Some(found) => found,
        None => {
            return None;
        },
    };
    proof {
        assert forall|v: Pubkey, b: u8| #[trigger] found_address(seeds, ID@, v@, b) implies v@ == vm@ by {
            lemma_found_unique(seeds, ID@, v@, b, vm@, vm_bump);
        }
    }
    let (omnibus, vm_omnibus_bump) = match find_vm_omnibus_pda(&vm) {
        Some(found) => found,
        None => {
            return None;
        },
    };
    let mut accounts: Vec<AccountMeta> = Vec::new();
    accounts.push(AccountMeta::new(vm_authority, true));
    accounts.push(AccountMeta::new(vm, false));
    accounts.push(AccountMeta::new(omnibus, false));
    accounts.push(AccountMeta::new_readonly(mint, false));
    accounts.push(AccountMeta::new_readonly(TOKEN_PROGRAM_ID, false));
    accounts.push(AccountMeta::new_readonly(SYSTEM_PROGRAM_ID, false));
    accounts.push(AccountMeta::new_readonly(RENT_SYSVAR_ID, false));
    let data = InitVmIx { lock_duration, vm_bump, vm_omnibus_bump }.to_bytes();
    let ix = Instruction { program_id: ID, accounts, data };
    assert(ix.accounts@ =~= seq![
        meta(vm_authority, true, true),
        meta(vm, false, true),
        meta(omnibus, false, true),
        meta(mint, false, false),
        meta(TOKEN_PROGRAM_ID, false, false),
        meta(SYSTEM_PROGRAM_ID, false, false),
        meta(RENT_SYSVAR_ID, false, false),
    ]);
    assert(ix.data@ =~= seq![CodeInstruction::InitVmIx.code(), lock_duration, vm_bump, vm_omnibus_bump]);
    Some(ix)
}

/// Creates a memory account of `vm` with `num_accounts` slots of
/// `account_size` bytes, both truncated to the instruction's fields.
pub fn vm_memory_init(vm_authority: Pubkey, vm: Pubkey, num_accounts: usize, account_size: usize, name: &str) -> (r:
    Option<Instruction>)
    requires
        encode_utf8(name@).len() <= 32,
    ensures
        r matches Some(ix) ==> exists|vm_memory: Pubkey, bump: u8|
            finds(
                Some((vm_memory, bump)),
                seq![CODE_VM@, VM_MEMORY_ACCOUNT@, name_field(name@), vm@],
                ID@,
            ) && ix.program_id == ID && ix.accounts@ == seq![
                meta(vm_authority, true, true),
                meta(vm, false, true),
                meta(vm_memory, false, true),
                meta(SYSTEM_PROGRAM_ID, false, false),
                meta(RENT_SYSVAR_ID, false, false),
            ] && ix.data@ == seq![CodeInstruction::InitMemoryIx.code()] + name_field(name@) + enc_u32(
                num_accounts as u32,
            ) + enc_u16(account_size as u16) + seq![bump],
        r is None <==> no_address(seq![CODE_VM@, VM_MEMORY_ACCOUNT@, name_field(name@), vm@], ID@),
{
    let name_bytes = create_name(name);
    let (vm_memory, vm_memory_bump) = match find_vm_memory_pda(&vm, &name_bytes) {
        Some(found) => found,
        None => {
            return None;
        },
    };
    let mut accounts: Vec<AccountMeta> = Vec::new();
    accounts.push(AccountMeta::new(vm_authority, true));
    accounts.push(AccountMeta::new(vm, false));
    accounts.push(AccountMeta::new(vm_memory, false));
    accounts.push(AccountMeta::new_readonly(SYSTEM_PROGRAM_ID, false));
    accounts.push(AccountMeta::new_readonly(RENT_SYSVAR_ID, false));
    let parsed = ParsedInitMemoryIx {
        num_accounts: num_accounts as u32,
        account_size: account_size as u16,
        name: name_bytes,
        vm_memory_bump,
    };
    let data = InitMemoryIx::from_struct(parsed).to_bytes();
    let ix = Instruction { program_id: ID, accounts, data };
    assert(ix.accounts@ =~= seq![
        meta(vm_authority, true, true),
        meta(vm, false, true),
        meta(vm_memory, false, true),
        meta(SYSTEM_PROGRAM_ID, false, false),
        meta(RENT_SYSVAR_ID, false, false),
    ]);
    assert(ix.data@ =~= seq![CodeInstruction::InitMemoryIx.code()] + name_field(name@) + enc_u32(
        num_accounts as u32,
    ) + enc_u16(account_size as u16) + seq![vm_memory_bump]);
    Some(ix)
}

/// Creates a storage account of `vm`.
pub fn vm_storage_init(vm_authority: Pubkey, vm: Pubkey, name: &str) -> (r: Option<Instruction>)
    requires
        encode_utf8(name@).len() <= 32,
    ensures
        r matches Some(ix) ==> exists|vm_storage: Pubkey, bump: u8|
            finds(
                Some((vm_storage, bump)),
                seq![CODE_VM@, VM_STORAGE_ACCOUNT@, name_field(name@), vm@],
                ID@,
            ) && ix.program_id == ID && ix.accounts@ == seq![
                meta(vm_authority, true, true),
                meta(vm, false, true),
                meta(vm_storage, false, true),
                meta(SYSTEM_PROGRAM_ID, false, false),
                meta(RENT_SYSVAR_ID, false, false),
            ] && ix.data@ == seq![CodeInstruction::InitStorageIx.code()] + name_field(name@) + seq![bump],
        r is None <==> no_address(seq![CODE_VM@, VM_STORAGE_ACCOUNT@, name_field(name@), vm@], ID@),
{
    let name_bytes = create_name(name);
    let (vm_storage, vm_storage_bump) = match find_vm_storage_pda(&vm, &name_bytes) {
        Some(found) => found,
        None => {
            return None;
        },
    };
    let mut accounts: Vec<AccountMeta> = Vec::new();
    accounts.push(AccountMeta::new(vm_authority, true));
    accounts.push(AccountMeta::new(vm, false));
    accounts.push(AccountMeta::new(vm_storage, false));
    accounts.push(AccountMeta::new_readonly(SYSTEM_PROGRAM_ID, false));
    accounts.push(AccountMeta::new_readonly(RENT_SYSVAR_ID, false));
    let data = InitStorageIx { name: name_bytes, vm_storage_bump }.to_bytes();
    let ix = Instruction { program_id: ID, accounts, data };
    assert(ix.accounts@ =~= seq![
        meta(vm_authority, true, true),
        meta(vm, false, true),
        meta(vm_storage, false, true),
        meta(SYSTEM_PROGRAM_ID, false, false),
        meta(RENT_SYSVAR_ID, false, false),
    ]);
    assert(ix.data@ =~= seq![CodeInstruction::InitStorageIx.code()] + name_field(name@) + seq![vm_storage_bump]);
    Some(ix)
}

/// The seeds of the relay named `name` of `vm`.
pub open spec fn relay_seeds_of(name: Seq<char>, vm: Pubkey) -> Seq<Seq<u8>> {
    seq![CODE_VM@, VM_RELAY_ACCOUNT@, name_field(name), vm@]
}

/// The VM and the relay that the init instructions create sit at the
/// addresses the loaders check: the seeds here are those that `load_vm`
/// and `load_relay` derive from the stored account.
pub proof fn lemma_init_seeds_match_load(vm: CodeVmAccount, relay: RelayAccount, name: Seq<char>, vm_key: Pubkey)
    ensures
        vm_seeds_of(vm.mint, vm.authority, vm.lock_duration) == crate::helpers::vm_seeds(vm),
        relay.name@ == name_field(name) ==> relay_seeds_of(name, vm_key) == crate::helpers::relay_seeds(
            relay,
            vm_key@,
        ),
{
}

/// Creates a relay of `vm` for `mint`, and its vault.
pub fn relay_init(vm_authority: Pubkey, vm: Pubkey, mint: Pubkey, name: &str) -> (r: Option<Instruction>)
    requires
        encode_utf8(name@).len() <= 32,
    ensures
        r matches Some(ix) ==> exists|relay: Pubkey, relay_bump: u8, vault: Pubkey, vault_bump: u8|
            finds(
                Some((relay, relay_bump)),
                seq![CODE_VM@, VM_RELAY_ACCOUNT@, name_field(name@), vm@],
                ID@,
            ) && finds(Some((vault, vault_bump)), seq![CODE_VM@, VM_RELAY_VAULT@, relay@], ID@)
            && ix.program_id == ID && ix.accounts@ == seq![
                meta(vm_authority, true, true),
                meta(vm, false, true),
                meta(relay, false, true),
                meta(vault, false, true),
                meta(mint, false, false),
                meta(TOKEN_PROGRAM_ID, false, false),
                meta(SYSTEM_PROGRAM_ID, false, false),
                meta(RENT_SYSVAR_ID, false, false),
            ] && ix.data@ == seq![CodeInstruction::InitRelayIx.code()] + name_field(name@) + seq![
                relay_bump,
                vault_bump,
            ],
        no_address(relay_seeds_of(name@, vm), ID@) ==> r is None,
        forall|v: Pubkey, b: u8|
            #[trigger] found_address(relay_seeds_of(name@, vm), ID@, v@, b) ==> (r is None <==> no_address(
                seq![CODE_VM@, VM_RELAY_VAULT@, v@],
                ID@,
            )),
{
    let ghost seeds = relay_seeds_of(name@, vm);
    let name_bytes = create_name(name);
    let (relay, relay_bump) = match find_vm_relay_pda(&vm, &name_bytes) {
        Some(found) => found,
        None => {
            return None;
        },
    };
    proof {
        assert forall|v: Pubkey, b: u8| #[trigger] found_address(seeds, ID@, v@, b) implies v@ == relay@ by {
            lemma_found_unique(seeds, ID@, v@, b, relay@, relay_bump);
        }
    }
    let (relay_vault, relay_vault_bump) = match find_vm_relay_vault_pda(&relay) {
        Some(found) => found,
        None => {
            return None;
        },
    };
    let mut accounts: Vec<AccountMeta> = Vec::new();
    accounts.push(AccountMeta::new(vm_authority, true));
    accounts.push(AccountMeta::new(vm, false));
    accounts.push(AccountMeta::new(relay, false));
    accounts.push(AccountMeta::new(relay_vault, false));
    accounts.push(AccountMeta::new_readonly(mint, false));
    accounts.push(AccountMeta::new_readonly(TOKEN_PROGRAM_ID, false));
    accounts.push(AccountMeta::new_readonly(SYSTEM_PROGRAM_ID, false));
    accounts.push(AccountMeta::new_readonly(RENT_SYSVAR_ID, false));
    let data = InitRelayIx { name: name_bytes, relay_bump, relay_vault_bump }.to_bytes();
    let ix = Instruction { program_id: ID, accounts, data };
    assert(ix.accounts@ =~= seq![
        meta(vm_authority, true, true),
        meta(vm, false, true),
        meta(relay, false, true),
        meta(relay_vault, false, true),
        meta(mint, false, false),
        meta(TOKEN_PROGRAM_ID, false, false),
        meta(SYSTEM_PROGRAM_ID, false, false),
        meta(RENT_SYSVAR_ID, false, false),
    ]);
    assert(ix.data@ =~= seq![CodeInstruction::InitRelayIx.code()] + name_field(name@) + seq![
        relay_bump,
        relay_vault_bump,
    ]);
    Some(ix)
}

/// The metas of a fixed account list, in order, as an instruction holds them.
pub fn meta_list(metas: &[AccountMeta]) -> (r: Vec<AccountMeta>)
    ensures
        r@ == metas@,
{
    let mut r: Vec<AccountMeta> = Vec::new();
    let mut i: usize = 0;
    while i < metas.len()
        invariant
            i <= metas@.len(),
            r@ == metas@.take(i as int),
        decreases metas.len() - i,
    {
        r.push(metas[i]);
        i = i + 1;
        assert(r@ =~= metas@.take(i as int));
    }
    assert(metas@.take(i as int) =~= metas@);
    r
}

} // verus!
