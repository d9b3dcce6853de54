//! A virtual timelock account.
use vstd::prelude::*;
use vstd::bytes::spec_u64_from_le_bytes;

use crate::codec::{
    copy_array, enc_u64, lemma_array_ext, lemma_enc_injective, lemma_le_bytes, u64_from_array,
    write_bytes, write_u64,
};
use crate::types::hash::{self, lemma_hash_ext};
use crate::consts::{CODE_VM, ID, VM_TIMELOCK_STATE, VM_TIMELOCK_VAULT, VM_UNLOCK_ACCOUNT, VM_WITHDRAW_RECEIPT};
use crate::pdas::{
    create_unlock_address, create_virtual_timelock_address, create_virtual_timelock_vault_address,
    create_withdraw_receipt_address, creates,
};
use crate::types::Pubkey;

verus! {

/// A timelocked token account kept by the VM in memory or storage.
#[derive(Clone, Copy, Debug, PartialEq, Eq)]
pub struct VirtualTimelockAccount {
    /// The wallet that owns the derived timelock and vault addresses.
    pub owner: Pubkey,
    /// Tells this virtual instance apart from others of the same owner.
    pub instance: hash::Hash,
    /// Bump of the token vault, derived from the owner.
    pub token_bump: u8,
    /// Bump of the unlock account, derived from the owner.
    pub unlock_bump: u8,
    /// Bump of the withdraw receipt, derived from the instance.
    pub withdraw_bump: u8,
    pub balance: u64,
    pub bump: u8,
}

impl VirtualTimelockAccount {
    pub const LEN: usize = 76;

    /// Borsh encoding: the fields in order, integers little-endian.
    pub open spec fn spec_bytes(self) -> Seq<u8> {
        self.owner@ + self.instance@ + seq![self.token_bump] + seq![self.unlock_bump] + seq![self.withdraw_bump] + enc_u64(self.balance) + seq![self.bump]
    }

    /// Where each field lies in the encoding: the owner in bytes 0..32, the
    /// instance in bytes 32..64, the token, unlock and withdraw bumps at bytes
    /// 64, 65 and 66, the balance as little-endian bytes in 67..75, the bump at
    /// byte 75.
    pub proof fn lemma_field_offsets(self)
        ensures
            self.spec_bytes().len() == 76,
            self.spec_bytes().subrange(0, 32) == self.owner@,
            self.spec_bytes().subrange(32, 64) == self.instance@,
            self.spec_bytes()[64] == self.token_bump,
            self.spec_bytes()[65] == self.unlock_bump,
            self.spec_bytes()[66] == self.withdraw_bump,
            spec_u64_from_le_bytes(self.spec_bytes().subrange(67, 75)) == self.balance,
            self.spec_bytes()[75] == self.bump,
    {
        lemma_le_bytes();
        assert(self.spec_bytes().subrange(0, 32) =~= self.owner@);
        assert(self.spec_bytes().subrange(32, 64) =~= self.instance@);
        assert(self.spec_bytes().subrange(67, 75) =~= enc_u64(self.balance));
    }

    /// Appends the encoding to `w`.
    pub fn pack(&self, w: &mut Vec<u8>)
        ensures
            final(w)@ == old(w)@ + self.spec_bytes(),
    {
        write_bytes(w, self.owner.as_slice());
        write_bytes(w, self.instance.value.as_slice());
        w.push(self.token_bump);
        w.push(self.unlock_bump);
        w.push(self.withdraw_bump);
        write_u64(w, self.balance);
        w.push(self.bump);
        assert(final(w)@ =~= old(w)@ + self.spec_bytes());
    }

    /// Reads the account from the first `LEN` bytes of `buf`.
    pub fn unpack(buf: &[u8]) -> (r: Result<Self, std::io::Error>)
        requires
            buf@.len() >= 76,
        ensures
            r matches Ok(x) && x.spec_bytes() == buf@.take(76),
    {
        proof {
            lemma_le_bytes();
        }
        let owner = copy_array::<32>(buf, 0);
        let instance = hash::Hash { value: copy_array::<32>(buf, 32) };
        let token_bump = buf[64];
        let unlock_bump = buf[65];
        let withdraw_bump = buf[66];
        let balance = u64_from_array(copy_array::<8>(buf, 67));
        let bump = buf[75];
        let x = VirtualTimelockAccount { owner, instance, token_bump, unlock_bump, withdraw_bump, balance, bump };
        assert(x.spec_bytes() =~= buf@.take(76));
        Ok(x)
    }

    pub proof fn lemma_len(self)
        ensures
            self.spec_bytes().len() == 76,
    {
        lemma_le_bytes();
    }

    /// An account is fixed by its bytes, so `unpack` reads back what
    /// `pack` wrote.
    pub proof fn lemma_bytes_determine(self, other: Self)
        requires
            self.spec_bytes() == other.spec_bytes(),
        ensures
            self == other,
    {
        lemma_le_bytes();
        lemma_enc_injective();
        let b = self.spec_bytes();
        assert(self.owner@ =~= b.subrange(0, 32));
        assert(other.owner@ =~= b.subrange(0, 32));
        lemma_array_ext(self.owner, other.owner);
        assert(self.instance@ =~= b.subrange(32, 64));
        assert(other.instance@ =~= b.subrange(32, 64));
        lemma_hash_ext(self.instance, other.instance);
        assert(self.token_bump == b[64] && other.token_bump == b[64]);
        assert(self.unlock_bump == b[65] && other.unlock_bump == b[65]);
        assert(self.withdraw_bump == b[66] && other.withdraw_bump == b[66]);
        assert(enc_u64(self.balance) =~= b.subrange(67, 75));
        assert(enc_u64(other.balance) =~= b.subrange(67, 75));
        assert(self.bump == b[75] && other.bump == b[75]);
    }
}
impl VirtualTimelockAccount {
    /// The real timelock state account this virtual account stands for.
    pub fn get_timelock_address(&self, mint: &Pubkey, authority: &Pubkey, lock_duration: u8) -> (r:
        Option<Pubkey>)
        ensures
            creates(
                r,
                seq![VM_TIMELOCK_STATE@, mint@, authority@, self.owner@, seq![lock_duration], seq![self.bump]],
                crate::external::timelock::ID@,
            ),
    {
        create_virtual_timelock_address(mint, authority, &self.owner, lock_duration, self.bump)
    }

    /// The token vault of the timelock account `timelock`.
    pub fn get_token_address(&self, timelock: &Pubkey) -> (r: Option<Pubkey>)
        ensures
            creates(
                r,
                seq![VM_TIMELOCK_VAULT@, timelock@, seq![3u8], seq![self.token_bump]],
                crate::external::timelock::ID@,
            ),
    {
        create_virtual_timelock_vault_address(timelock, self.token_bump)
    }

    /// The unlock state of the timelock account `timelock` in `vm`.
    pub fn get_unlock_address(&self, timelock: &Pubkey, vm: &Pubkey) -> (r: Option<Pubkey>)
        ensures
            creates(
                r,
                seq![CODE_VM@, VM_UNLOCK_ACCOUNT@, self.owner@, timelock@, vm@, seq![self.unlock_bump]],
                ID@,
            ),
    {
        create_unlock_address(&self.owner, timelock, vm, self.unlock_bump)
    }

    /// The withdraw receipt of this instance under the unlock `unlock_pda`.
    pub fn get_withdraw_receipt_address(&self, unlock_pda: &Pubkey, vm: &Pubkey) -> (r: Option<
        Pubkey,
    >)
        ensures
            creates(
                r,
                seq![CODE_VM@, VM_WITHDRAW_RECEIPT@, unlock_pda@, self.instance@, vm@, seq![self.withdraw_bump]],
                ID@,
            ),
    {
        create_withdraw_receipt_address(unlock_pda, &self.instance, vm, self.withdraw_bump)
    }
}

} // verus!
