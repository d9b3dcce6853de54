//! The VM account: who runs it, its mint, its clock and its proof of history.
use vstd::prelude::*;
use vstd::bytes::spec_u64_from_le_bytes;

use crate::codec::{copy_array, enc_u64, lemma_array_ext, lemma_enc_injective, lemma_le_bytes, u64_from_array, write_bytes, write_u64, arrays_bytes};
use crate::cvm::pool::TokenPool;
use crate::instruction::CodeInstruction;
use crate::state::{account_discriminator, write_discriminator, AccountType};
use crate::types::hash::{self, lemma_hash_ext};
use crate::types::Pubkey;
use crate::utils::sha256v;

verus! {

/// The state of a VM.
#[derive(Clone, Copy, Debug, PartialEq, Eq)]
pub struct CodeVmAccount {
    pub authority: Pubkey,
    pub mint: Pubkey,
    /// Instructions executed so far.
    pub slot: u64,
    /// Proof-of-history hash over the instructions executed.
    pub poh: hash::Hash,
    pub omnibus: TokenPool,
    /// In days.
    pub lock_duration: u8,
    pub bump: u8,
    pub padding: [u8; 5],
}

impl CodeVmAccount {
    /// The account's data after its eight-byte discriminator, as laid out
    /// in memory.
    pub open spec fn spec_bytes(self) -> Seq<u8> {
        self.authority@ + self.mint@ + enc_u64(self.slot) + self.poh@ + self.omnibus.spec_bytes() + seq![self.lock_duration] + seq![self.bump] + self.padding@
    }

    /// Where each field lies in the encoding: the authority in bytes 0..32,
    /// the mint in 32..64, the slot as little-endian bytes in 64..72, the
    /// proof-of-history hash in 72..104, the omnibus vault in 104..136 and its
    /// bump at 136, the lock duration at 137, the bump at 138, the padding in
    /// 139..144.
    pub proof fn lemma_field_offsets(self)
        ensures
            self.spec_bytes().len() == 144,
            self.spec_bytes().subrange(0, 32) == self.authority@,
            self.spec_bytes().subrange(32, 64) == self.mint@,
            spec_u64_from_le_bytes(self.spec_bytes().subrange(64, 72)) == self.slot,
            self.spec_bytes().subrange(72, 104) == self.poh@,
            self.spec_bytes().subrange(104, 136) == self.omnibus.vault@,
            self.spec_bytes()[136] == self.omnibus.vault_bump,
            self.spec_bytes()[137] == self.lock_duration,
            self.spec_bytes()[138] == self.bump,
            self.spec_bytes().subrange(139, 144) == self.padding@,
    {
        crate::codec::lemma_le_bytes();
        let b = self.spec_bytes();
        assert(b.subrange(0, 32) =~= self.authority@);
        assert(b.subrange(32, 64) =~= self.mint@);
        assert(b.subrange(64, 72) =~= enc_u64(self.slot));
        assert(b.subrange(72, 104) =~= self.poh@);
        assert(b.subrange(104, 136) =~= self.omnibus.vault@);
        assert(b.subrange(139, 144) =~= self.padding@);
    }

    /// Bytes of account data: the discriminator, then the fields.
    pub fn get_size() -> (r: usize)
        ensures
            r == 8 + 144,
    {
        8 + 144
    }

    /// The account data: the discriminator (the account type, then seven
    /// zeros), then the fields.
    pub fn pack(&self) -> (r: Vec<u8>)
        ensures
            r@ == account_discriminator(AccountType::CodeVmAccount) + self.spec_bytes(),
    {
        let mut w: Vec<u8> = Vec::new();
        write_discriminator(&mut w, AccountType::CodeVmAccount);
        write_bytes(&mut w, self.authority.as_slice());
        write_bytes(&mut w, self.mint.as_slice());
        write_u64(&mut w, self.slot);
        write_bytes(&mut w, self.poh.value.as_slice());
        self.omnibus.pack(&mut w);
        w.push(self.lock_duration);
        w.push(self.bump);
        write_bytes(&mut w, self.padding.as_slice());
        assert(w@ =~= account_discriminator(AccountType::CodeVmAccount) + self.spec_bytes());
        w
    }

    /// Reads the account from the front of `data`, which must be long
    /// enough and lead with this account type.
    pub fn unpack(data: &[u8]) -> (r: Self)
        requires
            data@.len() >= 8 + 144,
            data@[0] == AccountType::CodeVmAccount.code(),
        ensures
            r.spec_bytes() == data@.subrange(8, 152),
    {
        proof {
            lemma_le_bytes();
        }
        let authority = copy_array::<32>(data, 8);
        let mint = copy_array::<32>(data, 40);
        let slot = u64_from_array(copy_array::<8>(data, 72));
        let poh = hash::Hash { value: copy_array::<32>(data, 80) };
        let omnibus = TokenPool { vault: copy_array::<32>(data, 112), vault_bump: data[144] };
        let lock_duration = data[145];
        let bump = data[146];
        let padding = copy_array::<5>(data, 147);
        let x = CodeVmAccount { authority, mint, slot, poh, omnibus, lock_duration, bump, padding };
        assert(x.spec_bytes() =~= data@.subrange(8, 152));
        x
    }

    /// An account is fixed by its bytes, so `unpack` reads back what
    /// `pack` wrote.
    pub proof fn lemma_bytes_determine(self, other: Self)
        requires
            self.spec_bytes() == other.spec_bytes(),
        ensures
            self == other,
    {
        lemma_le_bytes();
        lemma_enc_injective();
        let b = self.spec_bytes();
        assert(self.authority@ =~= b.subrange(0, 32));
        assert(other.authority@ =~= b.subrange(0, 32));
        lemma_array_ext(self.authority, other.authority);
        assert(self.mint@ =~= b.subrange(32, 64));
        assert(other.mint@ =~= b.subrange(32, 64));
        lemma_array_ext(self.mint, other.mint);
        assert(enc_u64(self.slot) =~= b.subrange(64, 72));
        assert(enc_u64(other.slot) =~= b.subrange(64, 72));
        assert(self.poh@ =~= b.subrange(72, 104));
        assert(other.poh@ =~= b.subrange(72, 104));
        lemma_hash_ext(self.poh, other.poh);
        assert(self.omnibus.vault@ =~= b.subrange(104, 136));
        assert(other.omnibus.vault@ =~= b.subrange(104, 136));
        lemma_array_ext(self.omnibus.vault, other.omnibus.vault);
        assert(self.omnibus.vault_bump == b[136] && other.omnibus.vault_bump == b[136]);
        assert(self.lock_duration == b[137] && other.lock_duration == b[137]);
        assert(self.bump == b[138] && other.bump == b[138]);
        assert(self.padding@ =~= b.subrange(139, 144));
        assert(other.padding@ =~= b.subrange(139, 144));
        lemma_array_ext(self.padding, other.padding);
    }
}
impl CodeVmAccount {
    pub fn advance_slot(&mut self)
        requires
            old(self).slot < u64::MAX,
        ensures
            *final(self) == (CodeVmAccount { slot: (old(self).slot + 1) as u64, ..*old(self) }),
    {
        self.slot = self.slot + 1;
    }

    /// Folds an instruction into the proof-of-history hash: the new hash is
    /// the digest of the old one, the instruction's byte, and the keys of
    /// its accounts followed by its data; the slot advances by one.
    pub fn advance_poh(&mut self, ix: CodeInstruction, account_keys: &[Pubkey], data: &[u8])
        requires
            old(self).slot < u64::MAX,
        ensures
            final(self).poh@ == sha256v(
                seq![old(self).poh@, seq![ix.code()], arrays_bytes(account_keys@) + data@],
            ),
            *final(self) == (CodeVmAccount {
                slot: (old(self).slot + 1) as u64,
                poh: final(self).poh,
                ..*old(self)
            }),
    {
        let mut message: Vec<u8> = Vec::new();
        let mut i: usize = 0;
        while i < account_keys.len()
            invariant
                i <= account_keys@.len(),
                message@ == arrays_bytes(account_keys@.take(i as int)),
            decreases account_keys@.len() - i,
        {
            write_bytes(&mut message, account_keys[i].as_slice());
            proof {
                let m = account_keys@.take(i + 1).map_values(|a: [u8; 32]| a@);
                assert(m.drop_last() =~= account_keys@.take(i as int).map_values(|a: [u8; 32]| a@));
            }
            i = i + 1;
        }
        assert(account_keys@.take(i as int) =~= account_keys@);
        write_bytes(&mut message, data);
        let ix_byte = [ix.to_u8()];
        let parts: [&[u8]; 3] = [self.poh.as_ref(), ix_byte.as_slice(), message.as_slice()];
        let s = parts.as_slice();
        assert(s.deep_view() =~= seq![self.poh@, seq![ix.code()], message@]) by {
            assert(s@[0].deep_view() =~= self.poh@);
            assert(s@[1].deep_view() =~= seq![ix.code()]);
            assert(s@[2].deep_view() =~= message@);
        }
        self.poh = crate::utils::hashv(s);
        self.advance_slot();
    }

    pub fn get_authority(&self) -> (r: Pubkey)
        ensures
            r == self.authority,
    {
        self.authority
    }

    pub fn get_mint(&self) -> (r: Pubkey)
        ensures
            r == self.mint,
    {
        self.mint
    }

    pub fn get_bump(&self) -> (r: u8)
        ensures
            r == self.bump,
    {
        self.bump
    }

    pub fn get_omnibus_bump(&self) -> (r: u8)
        ensures
            r == self.omnibus.vault_bump,
    {
        self.omnibus.vault_bump
    }

    pub fn get_lock_duration(&self) -> (r: u8)
        ensures
            r == self.lock_duration,
    {
        self.lock_duration
    }

    pub fn get_current_poh(&self) -> (r: hash::Hash)
        ensures
            r == self.poh,
    {
        self.poh
    }

    pub fn get_current_slot(&self) -> (r: u64)
        ensures
            r == self.slot,
    {
        self.slot
    }
}

} // verus!
