//! The digests a virtual account's owner signs to move its tokens.
use vstd::prelude::*;

use crate::codec::{enc_u64, u64_to_array};
use crate::consts::{VM_TIMELOCK_STATE, VM_TIMELOCK_VAULT};
use crate::cvm::account::nonce::VirtualDurableNonce;
use crate::cvm::account::timelock::VirtualTimelockAccount;
use crate::cvm::state::vm::CodeVmAccount;
use crate::pdas::program_address;
use crate::types::hash;
use crate::types::Pubkey;
use crate::utils::sha256v;

verus! {

/// The tag that opens a transfer message.
pub const TRANSFER_TAG: [u8; 8] = [116, 114, 97, 110, 115, 102, 101, 114];

/// The token vault of a virtual timelock account in `vm`: the vault of
/// its timelock state address, where both addresses exist.
pub open spec fn token_address_of(vm: CodeVmAccount, vta: VirtualTimelockAccount) -> Option<Seq<u8>> {
    let timelock = program_address(
        seq![VM_TIMELOCK_STATE@, vm.mint@, vm.authority@, vta.owner@, seq![vm.lock_duration], seq![vta.bump]],
        crate::external::timelock::ID@,
    );
    match timelock {
        Some(t) => program_address(
            seq![VM_TIMELOCK_VAULT@, t, seq![3u8], seq![vta.token_bump]],
            crate::external::timelock::ID@,
        ),
        None => None,
    }
}

/// The digest of a transfer of `amount` from `src` to `dst` under the nonce.
pub open spec fn transfer_digest(src: Seq<u8>, dst: Seq<u8>, amount: u64, vdn: VirtualDurableNonce) -> Seq<
    u8,
> {
    sha256v(seq![TRANSFER_TAG@, src, dst, enc_u64(amount), vdn.address@, vdn.value@])
}

/// The signed transfer message is six parts in this order: the bytes of
/// `transfer`, the source vault, the destination vault, the amount as eight
/// little-endian bytes, the nonce's address and the nonce's value.
pub proof fn lemma_transfer_message_parts(src: Seq<u8>, dst: Seq<u8>, amount: u64, vdn: VirtualDurableNonce)
    ensures
        ({
            let parts = seq![
                seq![116u8, 114, 97, 110, 115, 102, 101, 114],
                src,
                dst,
                vstd::bytes::spec_u64_to_le_bytes(amount),
                vdn.address@,
                vdn.value@,
            ];
            transfer_digest(src, dst, amount, vdn) == sha256v(parts)
        }),
{
    assert(TRANSFER_TAG@ =~= seq![116u8, 114, 97, 110, 115, 102, 101, 114]);
}

/// The digest of a transfer between two token accounts; the nonce value is
/// advanced once used, so a signature is good for one transfer.
pub fn compact_transfer_message(
    src_timelock_address: &Pubkey,
    dst_timelock_address: &Pubkey,
    amount: u64,
    vdn: &VirtualDurableNonce,
) -> (r: hash::Hash)
    ensures
        r@ == transfer_digest(src_timelock_address@, dst_timelock_address@, amount, *vdn),
{
    let tag = TRANSFER_TAG;
    let amount_bytes = u64_to_array(amount);
    let parts: [&[u8]; 6] = [
        tag.as_slice(),
        src_timelock_address.as_slice(),
        dst_timelock_address.as_slice(),
        amount_bytes.as_slice(),
        vdn.address.as_slice(),
        vdn.value.as_ref(),
    ];
    let s = parts.as_slice();
    assert(s.deep_view() =~= seq![TRANSFER_TAG@, src_timelock_address@, dst_timelock_address@, enc_u64(amount), vdn.address@, vdn.value@]) by {
        assert(s@[0].deep_view() =~= TRANSFER_TAG@);
        assert(s@[1].deep_view() =~= src_timelock_address@);
        assert(s@[2].deep_view() =~= dst_timelock_address@);
        assert(s@[3].deep_view() =~= enc_u64(amount));
        assert(s@[4].deep_view() =~= vdn.address@);
        assert(s@[5].deep_view() =~= vdn.value@);
    }
    crate::utils::hashv(s)
}

/// The token vault of `vta` in `vm`, where its addresses exist.
pub fn token_address(vm: &CodeVmAccount, vta: &VirtualTimelockAccount) -> (r: Option<Pubkey>)
    ensures
        match r {
            Some(a) => token_address_of(*vm, *vta) == Some(a@),
            None => token_address_of(*vm, *vta) is None,
        },
        r matches Some(a) ==> exists|t: Seq<u8>|
            program_address(
                seq![VM_TIMELOCK_STATE@, vm.mint@, vm.authority@, vta.owner@, seq![vm.lock_duration], seq![vta.bump]],
                crate::external::timelock::ID@,
            ) == Some(t) && program_address(
                seq![VM_TIMELOCK_VAULT@, t, seq![3u8], seq![vta.token_bump]],
                crate::external::timelock::ID@,
            ) == Some(a@),
{
    let timelock = match vta.get_timelock_address(&vm.get_mint(), &vm.get_authority(), vm.get_lock_duration()) {
        Some(t) => t,
        None => {
            return None;
        },
    };
    let r = vta.get_token_address(&timelock);
    assert(r matches Some(a) ==> program_address(
        seq![VM_TIMELOCK_VAULT@, timelock@, seq![3u8], seq![vta.token_bump]],
        crate::external::timelock::ID@,
    ) == Some(a@));
    r
}

/// The vault that a message names for a virtual timelock account is found
/// in two steps: the timelock state address from the VM's mint, authority
/// and lock duration and the account's owner and bump, then the token vault
/// from that state address, the version byte 3 and the account's token
/// bump. Where the state address does not exist there is no vault.
pub proof fn lemma_token_address_is_vault_of_state(vm: CodeVmAccount, vta: VirtualTimelockAccount)
    ensures
        ({
            let state = program_address(
                seq![VM_TIMELOCK_STATE@, vm.mint@, vm.authority@, vta.owner@, seq![vm.lock_duration], seq![vta.bump]],
                crate::external::timelock::ID@,
            );
            &&& state is None ==> token_address_of(vm, vta) is None
            &&& forall|t: Seq<u8>|
                state == Some(t) ==> token_address_of(vm, vta) == program_address(
                    seq![VM_TIMELOCK_VAULT@, t, seq![3u8], seq![vta.token_bump]],
                    crate::external::timelock::ID@,
                )
        }),
{
}

/// The digest that the owner of `src_vta` signs to send `amount` to the
/// vault of `dst_vta`; `None` where an address does not exist.
pub fn create_transfer_message(
    vm: &CodeVmAccount,
    src_vta: &VirtualTimelockAccount,
    dst_vta: &VirtualTimelockAccount,
    vdn: &VirtualDurableNonce,
    amount: u64,
) -> (r: Option<hash::Hash>)
    ensures
        match (token_address_of(*vm, *src_vta), token_address_of(*vm, *dst_vta)) {
            (Some(s), Some(d)) => r matches Some(h) && h@ == transfer_digest(s, d, amount, *vdn),
            _ => r is None,
        },
{
    let src_token_address = match token_address(vm, src_vta) {
        Some(a) => a,
        None => {
            return None;
        },
    };
    let dst_token_address = match token_address(vm, dst_vta) {
        Some(a) => a,
        None => {
            return None;
        },
    };
    Some(compact_transfer_message(&src_token_address, &dst_token_address, amount, vdn))
}

/// The digest that the owner of `src_vta` signs to send `amount` to the
/// real token account `dst_pubkey`; `None` where an address does not exist.
pub fn create_transfer_message_to_external(
    vm: &CodeVmAccount,
    src_vta: &VirtualTimelockAccount,
    dst_pubkey: &Pubkey,
    vdn: &VirtualDurableNonce,
    amount: u64,
) -> (r: Option<hash::Hash>)
    ensures
        match token_address_of(*vm, *src_vta) {
            Some(s) => r matches Some(h) && h@ == transfer_digest(s, dst_pubkey@, amount, *vdn),
            None => r is None,
        },
{
    let src_token_address = match token_address(vm, src_vta) {
        Some(a) => a,
        None => {
            return None;
        },
    };
    Some(compact_transfer_message(&src_token_address, dst_pubkey, amount, vdn))
}

} // verus!
