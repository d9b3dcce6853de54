//! Program-derived addresses of the VM and of the programs it drives.
//! Each address comes from a list of seeds and a program id; `find_*`
//! looks for the highest bump that gives an address, `create_*` uses the
//! bump it is given. Where no bump works, or the given bump gives no
//! address, these return `None`.
use vstd::prelude::*;

use crate::codec::{enc_u64, u64_to_array};
use crate::consts::{
    CODE_VM, ID, MAX_NAME_LEN, VM_DEPOSIT_PDA, VM_DURABLE_NONCE, VM_MEMORY_ACCOUNT, VM_OMNIBUS,
    VM_RELAY_ACCOUNT, VM_RELAY_COMMITMENT, VM_RELAY_PROOF, VM_RELAY_VAULT, VM_STORAGE_ACCOUNT,
    VM_TIMELOCK_STATE, VM_TIMELOCK_VAULT, VM_UNLOCK_ACCOUNT, VM_WITHDRAW_RECEIPT,
};
use crate::types::hash;
use crate::types::Pubkey;

verus! {

/// The address that `Pubkey::create_program_address` derives from `seeds`
/// and `program_id`, if any: none where the hash lands on the curve or the
/// seeds are too many or too long.
pub uninterp spec fn program_address(seeds: Seq<Seq<u8>>, program_id: Seq<u8>) -> Option<Seq<u8>>;

/// `r` is the address derived from `seeds`, or `None` where there is none.
pub open spec fn creates(r: Option<Pubkey>, seeds: Seq<Seq<u8>>, program_id: Seq<u8>) -> bool {
    match r {
        Some(a) => program_address(seeds, program_id) == Some(a@),
        None => program_address(seeds, program_id) is None,
    }
}

/// `(a, bump)` is what the bump search finds: `bump` gives `a`, and no
/// higher bump gives an address.
pub open spec fn found_address(seeds: Seq<Seq<u8>>, program_id: Seq<u8>, a: Seq<u8>, bump: u8) -> bool {
    &&& 1 <= bump
    &&& program_address(seeds.push(seq![bump]), program_id) == Some(a)
    &&& forall|b: u8| bump < b ==> (#[trigger] program_address(seeds.push(seq![b]), program_id)) is None
}

/// No bump from 255 down to 1 gives an address.
pub open spec fn no_address(seeds: Seq<Seq<u8>>, program_id: Seq<u8>) -> bool {
    forall|b: u8| 1 <= b ==> (#[trigger] program_address(seeds.push(seq![b]), program_id)) is None
}

pub open spec fn finds(r: Option<(Pubkey, u8)>, seeds: Seq<Seq<u8>>, program_id: Seq<u8>) -> bool {
    match r {
        Some((a, bump)) => found_address(seeds, program_id, a@, bump),
        None => no_address(seeds, program_id),
    }
}

/// The address the bump search finds is the one that creation with the
/// found bump gives; `find_*` and `create_*` over the same seeds agree.
pub proof fn lemma_found_is_created(seeds: Seq<Seq<u8>>, program_id: Seq<u8>, found: Pubkey, bump: u8, created: Option<Pubkey>)
    requires
        found_address(seeds, program_id, found@, bump),
        creates(created, seeds.push(seq![bump]), program_id),
    ensures
        created == Some(found),
{
    let a = created->0;
    crate::codec::lemma_array_ext(a, found);
}

/// The bump search has one outcome: two found pairs are the same.
pub proof fn lemma_found_unique(seeds: Seq<Seq<u8>>, program_id: Seq<u8>, a: Seq<u8>, bump_a: u8, b: Seq<u8>, bump_b: u8)
    requires
        found_address(seeds, program_id, a, bump_a),
        found_address(seeds, program_id, b, bump_b),
    ensures
        a == b,
        bump_a == bump_b,
{
    if bump_a < bump_b {
        assert(program_address(seeds.push(seq![bump_b]), program_id) is None);
    } else if bump_b < bump_a {
        assert(program_address(seeds.push(seq![bump_a]), program_id) is None);
    }
}

/// `Pubkey::create_program_address(seeds, program_id)`, its address as
/// bytes; it depends on the seeds and the program id alone.
#[verifier::external_body]
pub(crate) fn create_program_address(seeds: &[&[u8]], program_id: &Pubkey) -> (r: Option<Pubkey>)
    ensures
        r is Some <==> program_address(seeds.deep_view(), program_id@) is Some,
        r matches Some(a) ==> program_address(seeds.deep_view(), program_id@) == Some(a@),
{
    match solana_program::pubkey::Pubkey::create_program_address(
        seeds,
        &solana_program::pubkey::Pubkey::new_from_array(*program_id),
    ) {
        Ok(p) => Some(p.to_bytes()),
        Err(_) => None,
    }
}

/// `Pubkey::try_find_program_address(seeds, program_id)`: tries the bumps
/// from 255 down to 1, each appended as a one-byte seed, and gives the
/// first that yields an address.
#[verifier::external_body]
pub(crate) fn try_find_program_address(seeds: &[&[u8]], program_id: &Pubkey) -> (r: Option<(Pubkey, u8)>)
    ensures
        finds(r, seeds.deep_view(), program_id@),
{
    match solana_program::pubkey::Pubkey::try_find_program_address(
        seeds,
        &solana_program::pubkey::Pubkey::new_from_array(*program_id),
    ) {
        Some((p, bump)) => Some((p.to_bytes(), bump)),
        None => None,
    }
}


/// The VM of a mint, an authority and a lock duration.
pub fn find_vm_pda(mint: &Pubkey, authority: &Pubkey, lock_duration: u8) -> (r: Option<(Pubkey, u8)>)
    ensures
        finds(r, seq![CODE_VM@, mint@, authority@, seq![lock_duration]], ID@),
{
    let s0 = CODE_VM;
    let s3 = [lock_duration];
    let seeds: [&[u8]; 4] = [s0.as_slice(), mint.as_slice(), authority.as_slice(), s3.as_slice()];
    let s = seeds.as_slice();
    assert(s.deep_view() =~= seq![CODE_VM@, mint@, authority@, seq![lock_duration]]) by {
        assert(s@[0].deep_view() =~= CODE_VM@);
        assert(s@[1].deep_view() =~= mint@);
        assert(s@[2].deep_view() =~= authority@);
        assert(s@[3].deep_view() =~= seq![lock_duration]);
    }
    let program_id = ID;
    try_find_program_address(s, &program_id)
}

/// The omnibus token account of a VM.
pub fn find_vm_omnibus_pda(vm: &Pubkey) -> (r: Option<(Pubkey, u8)>)
    ensures
        finds(r, seq![CODE_VM@, VM_OMNIBUS@, vm@], ID@),
{
    let s0 = CODE_VM;
    let s1 = VM_OMNIBUS;
    let seeds: [&[u8]; 3] = [s0.as_slice(), s1.as_slice(), vm.as_slice()];
    let s = seeds.as_slice();
    assert(s.deep_view() =~= seq![CODE_VM@, VM_OMNIBUS@, vm@]) by {
        assert(s@[0].deep_view() =~= CODE_VM@);
        assert(s@[1].deep_view() =~= VM_OMNIBUS@);
        assert(s@[2].deep_view() =~= vm@);
    }
    let program_id = ID;
    try_find_program_address(s, &program_id)
}

/// A memory account of a VM.
pub fn find_vm_memory_pda(vm: &Pubkey, name: &[u8; MAX_NAME_LEN]) -> (r: Option<(Pubkey, u8)>)
    ensures
        finds(r, seq![CODE_VM@, VM_MEMORY_ACCOUNT@, name@, vm@], ID@),
{
    let s0 = CODE_VM;
    let s1 = VM_MEMORY_ACCOUNT;
    let seeds: [&[u8]; 4] = [s0.as_slice(), s1.as_slice(), name.as_slice(), vm.as_slice()];
    let s = seeds.as_slice();
    assert(s.deep_view() =~= seq![CODE_VM@, VM_MEMORY_ACCOUNT@, name@, vm@]) by {
        assert(s@[0].deep_view() =~= CODE_VM@);
        assert(s@[1].deep_view() =~= VM_MEMORY_ACCOUNT@);
        assert(s@[2].deep_view() =~= name@);
        assert(s@[3].deep_view() =~= vm@);
    }
    let program_id = ID;
    try_find_program_address(s, &program_id)
}

/// A storage account of a VM.
pub fn find_vm_storage_pda(vm: &Pubkey, name: &[u8; MAX_NAME_LEN]) -> (r: Option<(Pubkey, u8)>)
    ensures
        finds(r, seq![CODE_VM@, VM_STORAGE_ACCOUNT@, name@, vm@], ID@),
{
    let s0 = CODE_VM;
    let s1 = VM_STORAGE_ACCOUNT;
    let seeds: [&[u8]; 4] = [s0.as_slice(), s1.as_slice(), name.as_slice(), vm.as_slice()];
    let s = seeds.as_slice();
    assert(s.deep_view() =~= seq![CODE_VM@, VM_STORAGE_ACCOUNT@, name@, vm@]) by {
        assert(s@[0].deep_view() =~= CODE_VM@);
        assert(s@[1].deep_view() =~= VM_STORAGE_ACCOUNT@);
        assert(s@[2].deep_view() =~= name@);
        assert(s@[3].deep_view() =~= vm@);
    }
    let program_id = ID;
    try_find_program_address(s, &program_id)
}

/// A relay of a VM.
pub fn find_vm_relay_pda(vm: &Pubkey, name: &[u8; MAX_NAME_LEN]) -> (r: Option<(Pubkey, u8)>)
    ensures
        finds(r, seq![CODE_VM@, VM_RELAY_ACCOUNT@, name@, vm@], ID@),
{
    let s0 = CODE_VM;
    let s1 = VM_RELAY_ACCOUNT;
    let seeds: [&[u8]; 4] = [s0.as_slice(), s1.as_slice(), name.as_slice(), vm.as_slice()];
    let s = seeds.as_slice();
    assert(s.deep_view() =~= seq![CODE_VM@, VM_RELAY_ACCOUNT@, name@, vm@]) by {
        assert(s@[0].deep_view() =~= CODE_VM@);
        assert(s@[1].deep_view() =~= VM_RELAY_ACCOUNT@);
        assert(s@[2].deep_view() =~= name@);
        assert(s@[3].deep_view() =~= vm@);
    }
    let program_id = ID;
    try_find_program_address(s, &program_id)
}

/// The token vault of a relay.
pub fn find_vm_relay_vault_pda(relay: &Pubkey) -> (r: Option<(Pubkey, u8)>)
    ensures
        finds(r, seq![CODE_VM@, VM_RELAY_VAULT@, relay@], ID@),
{
    let s0 = CODE_VM;
    let s1 = VM_RELAY_VAULT;
    let seeds: [&[u8]; 3] = [s0.as_slice(), s1.as_slice(), relay.as_slice()];
    let s = seeds.as_slice();
    assert(s.deep_view() =~= seq![CODE_VM@, VM_RELAY_VAULT@, relay@]) by {
        assert(s@[0].deep_view() =~= CODE_VM@);
        assert(s@[1].deep_view() =~= VM_RELAY_VAULT@);
        assert(s@[2].deep_view() =~= relay@);
    }
    let program_id = ID;
    try_find_program_address(s, &program_id)
}

/// The deposit account of a depositor in a VM.
pub fn find_timelock_deposit_pda(vm: &Pubkey, depositor: &Pubkey) -> (r: Option<(Pubkey, u8)>)
    ensures
        finds(r, seq![CODE_VM@, VM_DEPOSIT_PDA@, depositor@, vm@], ID@),
{
    let s0 = CODE_VM;
    let s1 = VM_DEPOSIT_PDA;
    let seeds: [&[u8]; 4] = [s0.as_slice(), s1.as_slice(), depositor.as_slice(), vm.as_slice()];
    let s = seeds.as_slice();
    assert(s.deep_view() =~= seq![CODE_VM@, VM_DEPOSIT_PDA@, depositor@, vm@]) by {
        assert(s@[0].deep_view() =~= CODE_VM@);
        assert(s@[1].deep_view() =~= VM_DEPOSIT_PDA@);
        assert(s@[2].deep_view() =~= depositor@);
        assert(s@[3].deep_view() =~= vm@);
    }
    let program_id = ID;
    try_find_program_address(s, &program_id)
}

/// The deposit account of a depositor in a VM, with its bump.
pub fn create_timelock_deposit_pda(vm: &Pubkey, depositor: &Pubkey, bump: u8) -> (r: Option<Pubkey>)
    ensures
        creates(r, seq![CODE_VM@, VM_DEPOSIT_PDA@, depositor@, vm@, seq![bump]], ID@),
{
    let s0 = CODE_VM;
    let s1 = VM_DEPOSIT_PDA;
    let s4 = [bump];
    let seeds: [&[u8]; 5] = [s0.as_slice(), s1.as_slice(), depositor.as_slice(), vm.as_slice(), s4.as_slice()];
    let s = seeds.as_slice();
    assert(s.deep_view() =~= seq![CODE_VM@, VM_DEPOSIT_PDA@, depositor@, vm@, seq![bump]]) by {
        assert(s@[0].deep_view() =~= CODE_VM@);
        assert(s@[1].deep_view() =~= VM_DEPOSIT_PDA@);
        assert(s@[2].deep_view() =~= depositor@);
        assert(s@[3].deep_view() =~= vm@);
        assert(s@[4].deep_view() =~= seq![bump]);
    }
    let program_id = ID;
    create_program_address(s, &program_id)
}

/// A virtual durable nonce.
pub fn find_virtual_nonce_pda(vm: &Pubkey, seed: &Pubkey, poh: &hash::Hash) -> (r: Option<(Pubkey, u8)>)
    ensures
        finds(r, seq![CODE_VM@, VM_DURABLE_NONCE@, seed@, poh@, vm@], ID@),
{
    let s0 = CODE_VM;
    let s1 = VM_DURABLE_NONCE;
    let seeds: [&[u8]; 5] = [s0.as_slice(), s1.as_slice(), seed.as_slice(), poh.as_ref(), vm.as_slice()];
    let s = seeds.as_slice();
    assert(s.deep_view() =~= seq![CODE_VM@, VM_DURABLE_NONCE@, seed@, poh@, vm@]) by {
        assert(s@[0].deep_view() =~= CODE_VM@);
        assert(s@[1].deep_view() =~= VM_DURABLE_NONCE@);
        assert(s@[2].deep_view() =~= seed@);
        assert(s@[3].deep_view() =~= poh@);
        assert(s@[4].deep_view() =~= vm@);
    }
    let program_id = ID;
    try_find_program_address(s, &program_id)
}

/// A virtual durable nonce, with its bump.
pub fn create_virtual_nonce_pda(vm: &Pubkey, seed: &Pubkey, poh: &hash::Hash, bump: u8) -> (r: Option<Pubkey>)
    ensures
        creates(r, seq![CODE_VM@, VM_DURABLE_NONCE@, seed@, poh@, vm@, seq![bump]], ID@),
{
    let s0 = CODE_VM;
    let s1 = VM_DURABLE_NONCE;
    let s5 = [bump];
    let seeds: [&[u8]; 6] = [s0.as_slice(), s1.as_slice(), seed.as_slice(), poh.as_ref(), vm.as_slice(), s5.as_slice()];
    let s = seeds.as_slice();
    assert(s.deep_view() =~= seq![CODE_VM@, VM_DURABLE_NONCE@, seed@, poh@, vm@, seq![bump]]) by {
        assert(s@[0].deep_view() =~= CODE_VM@);
        assert(s@[1].deep_view() =~= VM_DURABLE_NONCE@);
        assert(s@[2].deep_view() =~= seed@);
        assert(s@[3].deep_view() =~= poh@);
        assert(s@[4].deep_view() =~= vm@);
        assert(s@[5].deep_view() =~= seq![bump]);
    }
    let program_id = ID;
    create_program_address(s, &program_id)
}

/// The timelock state account of an owner, under the timelock program.
pub fn find_virtual_timelock_address(mint: &Pubkey, authority: &Pubkey, owner: &Pubkey, lock_duration: u8) -> (r: Option<(Pubkey, u8)>)
    ensures
        finds(r, seq![VM_TIMELOCK_STATE@, mint@, authority@, owner@, seq![lock_duration]], crate::external::timelock::ID@),
{
    let s0 = VM_TIMELOCK_STATE;
    let s4 = [lock_duration];
    let seeds: [&[u8]; 5] = [s0.as_slice(), mint.as_slice(), authority.as_slice(), owner.as_slice(), s4.as_slice()];
    let s = seeds.as_slice();
    assert(s.deep_view() =~= seq![VM_TIMELOCK_STATE@, mint@, authority@, owner@, seq![lock_duration]]) by {
        assert(s@[0].deep_view() =~= VM_TIMELOCK_STATE@);
        assert(s@[1].deep_view() =~= mint@);
        assert(s@[2].deep_view() =~= authority@);
        assert(s@[3].deep_view() =~= owner@);
        assert(s@[4].deep_view() =~= seq![lock_duration]);
    }
    let program_id = crate::external::timelock::ID;
    try_find_program_address(s, &program_id)
}

/// The timelock state account of an owner, with its bump.
pub fn create_virtual_timelock_address(mint: &Pubkey, authority: &Pubkey, owner: &Pubkey, lock_duration: u8, timelock_bump: u8) -> (r: Option<Pubkey>)
    ensures
        creates(r, seq![VM_TIMELOCK_STATE@, mint@, authority@, owner@, seq![lock_duration], seq![timelock_bump]], crate::external::timelock::ID@),
{
    let s0 = VM_TIMELOCK_STATE;
    let s4 = [lock_duration];
    let s5 = [timelock_bump];
    let seeds: [&[u8]; 6] = [s0.as_slice(), mint.as_slice(), authority.as_slice(), owner.as_slice(), s4.as_slice(), s5.as_slice()];
    let s = seeds.as_slice();
    assert(s.deep_view() =~= seq![VM_TIMELOCK_STATE@, mint@, authority@, owner@, seq![lock_duration], seq![timelock_bump]]) by {
        assert(s@[0].deep_view() =~= VM_TIMELOCK_STATE@);
        assert(s@[1].deep_view() =~= mint@);
        assert(s@[2].deep_view() =~= authority@);
        assert(s@[3].deep_view() =~= owner@);
        assert(s@[4].deep_view() =~= seq![lock_duration]);
        assert(s@[5].deep_view() =~= seq![timelock_bump]);
    }
    let program_id = crate::external::timelock::ID;
    create_program_address(s, &program_id)
}

/// The token vault of a timelock account (vault version 3).
pub fn find_virtual_timelock_vault_address(timelock_address: &Pubkey) -> (r: Option<(Pubkey, u8)>)
    ensures
        finds(r, seq![VM_TIMELOCK_VAULT@, timelock_address@, seq![3u8]], crate::external::timelock::ID@),
{
    let s0 = VM_TIMELOCK_VAULT;
    let s2 = [3u8];
    let seeds: [&[u8]; 3] = [s0.as_slice(), timelock_address.as_slice(), s2.as_slice()];
    let s = seeds.as_slice();
    assert(s.deep_view() =~= seq![VM_TIMELOCK_VAULT@, timelock_address@, seq![3u8]]) by {
        assert(s@[0].deep_view() =~= VM_TIMELOCK_VAULT@);
        assert(s@[1].deep_view() =~= timelock_address@);
        assert(s@[2].deep_view() =~= seq![3u8]);
    }
    let program_id = crate::external::timelock::ID;
    try_find_program_address(s, &program_id)
}

/// The token vault of a timelock account (vault version 3), with its bump.
pub fn create_virtual_timelock_vault_address(timelock_address: &Pubkey, vault_bump: u8) -> (r: Option<Pubkey>)
    ensures
        creates(r, seq![VM_TIMELOCK_VAULT@, timelock_address@, seq![3u8], seq![vault_bump]], crate::external::timelock::ID@),
{
    let s0 = VM_TIMELOCK_VAULT;
    let s2 = [3u8];
    let s3 = [vault_bump];
    let seeds: [&[u8]; 4] = [s0.as_slice(), timelock_address.as_slice(), s2.as_slice(), s3.as_slice()];
    let s = seeds.as_slice();
    assert(s.deep_view() =~= seq![VM_TIMELOCK_VAULT@, timelock_address@, seq![3u8], seq![vault_bump]]) by {
        assert(s@[0].deep_view() =~= VM_TIMELOCK_VAULT@);
        assert(s@[1].deep_view() =~= timelock_address@);
        assert(s@[2].deep_view() =~= seq![3u8]);
        assert(s@[3].deep_view() =~= seq![vault_bump]);
    }
    let program_id = crate::external::timelock::ID;
    create_program_address(s, &program_id)
}

/// The unlock state of a virtual account.
pub fn find_unlock_address(virtual_account_owner: &Pubkey, virtual_account: &Pubkey, vm: &Pubkey) -> (r: Option<(Pubkey, u8)>)
    ensures
        finds(r, seq![CODE_VM@, VM_UNLOCK_ACCOUNT@, virtual_account_owner@, virtual_account@, vm@], ID@),
{
    let s0 = CODE_VM;
    let s1 = VM_UNLOCK_ACCOUNT;
    let seeds: [&[u8]; 5] = [s0.as_slice(), s1.as_slice(), virtual_account_owner.as_slice(), virtual_account.as_slice(), vm.as_slice()];
    let s = seeds.as_slice();
    assert(s.deep_view() =~= seq![CODE_VM@, VM_UNLOCK_ACCOUNT@, virtual_account_owner@, virtual_account@, vm@]) by {
        assert(s@[0].deep_view() =~= CODE_VM@);
        assert(s@[1].deep_view() =~= VM_UNLOCK_ACCOUNT@);
        assert(s@[2].deep_view() =~= virtual_account_owner@);
        assert(s@[3].deep_view() =~= virtual_account@);
        assert(s@[4].deep_view() =~= vm@);
    }
    let program_id = ID;
    try_find_program_address(s, &program_id)
}

/// The unlock state of a virtual account, with its bump.
pub fn create_unlock_address(virtual_account_owner: &Pubkey, virtual_account: &Pubkey, vm: &Pubkey, bump: u8) -> (r: Option<Pubkey>)
    ensures
        creates(r, seq![CODE_VM@, VM_UNLOCK_ACCOUNT@, virtual_account_owner@, virtual_account@, vm@, seq![bump]], ID@),
{
    let s0 = CODE_VM;
    let s1 = VM_UNLOCK_ACCOUNT;
    let s5 = [bump];
    let seeds: [&[u8]; 6] = [s0.as_slice(), s1.as_slice(), virtual_account_owner.as_slice(), virtual_account.as_slice(), vm.as_slice(), s5.as_slice()];
    let s = seeds.as_slice();
    assert(s.deep_view() =~= seq![CODE_VM@, VM_UNLOCK_ACCOUNT@, virtual_account_owner@, virtual_account@, vm@, seq![bump]]) by {
        assert(s@[0].deep_view() =~= CODE_VM@);
        assert(s@[1].deep_view() =~= VM_UNLOCK_ACCOUNT@);
        assert(s@[2].deep_view() =~= virtual_account_owner@);
        assert(s@[3].deep_view() =~= virtual_account@);
        assert(s@[4].deep_view() =~= vm@);
        assert(s@[5].deep_view() =~= seq![bump]);
    }
    let program_id = ID;
    create_program_address(s, &program_id)
}

/// The withdraw receipt of an unlock and a nonce: each record has its own nonce.
pub fn find_withdraw_receipt_address(unlock_pda: &Pubkey, nonce: &hash::Hash, vm: &Pubkey) -> (r: Option<(Pubkey, u8)>)
    ensures
        finds(r, seq![CODE_VM@, VM_WITHDRAW_RECEIPT@, unlock_pda@, nonce@, vm@], ID@),
{
    let s0 = CODE_VM;
    let s1 = VM_WITHDRAW_RECEIPT;
    let seeds: [&[u8]; 5] = [s0.as_slice(), s1.as_slice(), unlock_pda.as_slice(), nonce.as_ref(), vm.as_slice()];
    let s = seeds.as_slice();
    assert(s.deep_view() =~= seq![CODE_VM@, VM_WITHDRAW_RECEIPT@, unlock_pda@, nonce@, vm@]) by {
        assert(s@[0].deep_view() =~= CODE_VM@);
        assert(s@[1].deep_view() =~= VM_WITHDRAW_RECEIPT@);
        assert(s@[2].deep_view() =~= unlock_pda@);
        assert(s@[3].deep_view() =~= nonce@);
        assert(s@[4].deep_view() =~= vm@);
    }
    let program_id = ID;
    try_find_program_address(s, &program_id)
}

/// The withdraw receipt of an unlock and a nonce, with its bump.
pub fn create_withdraw_receipt_address(unlock_pda: &Pubkey, nonce: &hash::Hash, vm: &Pubkey, bump: u8) -> (r: Option<Pubkey>)
    ensures
        creates(r, seq![CODE_VM@, VM_WITHDRAW_RECEIPT@, unlock_pda@, nonce@, vm@, seq![bump]], ID@),
{
    let s0 = CODE_VM;
    let s1 = VM_WITHDRAW_RECEIPT;
    let s5 = [bump];
    let seeds: [&[u8]; 6] = [s0.as_slice(), s1.as_slice(), unlock_pda.as_slice(), nonce.as_ref(), vm.as_slice(), s5.as_slice()];
    let s = seeds.as_slice();
    assert(s.deep_view() =~= seq![CODE_VM@, VM_WITHDRAW_RECEIPT@, unlock_pda@, nonce@, vm@, seq![bump]]) by {
        assert(s@[0].deep_view() =~= CODE_VM@);
        assert(s@[1].deep_view() =~= VM_WITHDRAW_RECEIPT@);
        assert(s@[2].deep_view() =~= unlock_pda@);
        assert(s@[3].deep_view() =~= nonce@);
        assert(s@[4].deep_view() =~= vm@);
        assert(s@[5].deep_view() =~= seq![bump]);
    }
    let program_id = ID;
    create_program_address(s, &program_id)
}

/// The proof account of a relay for a root and a commitment.
pub fn find_relay_proof_address(relay: &Pubkey, merkle_root: &hash::Hash, commitment: &Pubkey) -> (r: Option<(Pubkey, u8)>)
    ensures
        finds(r, seq![CODE_VM@, VM_RELAY_PROOF@, relay@, merkle_root@, commitment@], ID@),
{
    let s0 = CODE_VM;
    let s1 = VM_RELAY_PROOF;
    let seeds: [&[u8]; 5] = [s0.as_slice(), s1.as_slice(), relay.as_slice(), merkle_root.as_ref(), commitment.as_slice()];
    let s = seeds.as_slice();
    assert(s.deep_view() =~= seq![CODE_VM@, VM_RELAY_PROOF@, relay@, merkle_root@, commitment@]) by {
        assert(s@[0].deep_view() =~= CODE_VM@);
        assert(s@[1].deep_view() =~= VM_RELAY_PROOF@);
        assert(s@[2].deep_view() =~= relay@);
        assert(s@[3].deep_view() =~= merkle_root@);
        assert(s@[4].deep_view() =~= commitment@);
    }
    let program_id = ID;
    try_find_program_address(s, &program_id)
}

/// The commitment of a relay payment.
pub fn find_relay_commitment_address(relay: &Pubkey, merkle_root: &hash::Hash, transcript: &hash::Hash, destination: &Pubkey, amount: u64) -> (r: Option<(Pubkey, u8)>)
    ensures
        finds(r, seq![CODE_VM@, VM_RELAY_COMMITMENT@, relay@, merkle_root@, transcript@, destination@, enc_u64(amount)], ID@),
{
    let s0 = CODE_VM;
    let s1 = VM_RELAY_COMMITMENT;
    let s6 = u64_to_array(amount);
    let seeds: [&[u8]; 7] = [s0.as_slice(), s1.as_slice(), relay.as_slice(), merkle_root.as_ref(), transcript.as_ref(), destination.as_slice(), s6.as_slice()];
    let s = seeds.as_slice();
    assert(s.deep_view() =~= seq![CODE_VM@, VM_RELAY_COMMITMENT@, relay@, merkle_root@, transcript@, destination@, enc_u64(amount)]) by {
        assert(s@[0].deep_view() =~= CODE_VM@);
        assert(s@[1].deep_view() =~= VM_RELAY_COMMITMENT@);
        assert(s@[2].deep_view() =~= relay@);
        assert(s@[3].deep_view() =~= merkle_root@);
        assert(s@[4].deep_view() =~= transcript@);
        assert(s@[5].deep_view() =~= destination@);
        assert(s@[6].deep_view() =~= enc_u64(amount));
    }
    let program_id = ID;
    try_find_program_address(s, &program_id)
}

/// The destination vault of a proof, under the splitter program.
pub fn find_relay_destination(proof: &Pubkey) -> (r: Option<(Pubkey, u8)>)
    ensures
        finds(r, seq![CODE_VM@, VM_RELAY_VAULT@, proof@], crate::external::splitter::ID@),
{
    let s0 = CODE_VM;
    let s1 = VM_RELAY_VAULT;
    let seeds: [&[u8]; 3] = [s0.as_slice(), s1.as_slice(), proof.as_slice()];
    let s = seeds.as_slice();
    assert(s.deep_view() =~= seq![CODE_VM@, VM_RELAY_VAULT@, proof@]) by {
        assert(s@[0].deep_view() =~= CODE_VM@);
        assert(s@[1].deep_view() =~= VM_RELAY_VAULT@);
        assert(s@[2].deep_view() =~= proof@);
    }
    let program_id = crate::external::splitter::ID;
    try_find_program_address(s, &program_id)
}

} // verus!
