//! The receipt of a withdrawal from an unlocked account.
use vstd::prelude::*;

use crate::codec::{copy_array, enc_u64, lemma_array_ext, lemma_enc_injective, lemma_le_bytes, u64_from_array, write_bytes, write_u64};

use crate::state::{account_discriminator, write_discriminator, AccountType};
use crate::types::hash::{self, lemma_hash_ext};
use crate::types::Pubkey;

verus! {

/// Proof that the record with `nonce` was withdrawn.
#[derive(Clone, Copy, Debug, PartialEq, Eq)]
pub struct WithdrawReceiptAccount {
    pub unlock_pda: Pubkey,
    pub nonce: hash::Hash,
    pub amount: u64,
    pub bump: u8,
    pub padding: [u8; 7],
}

impl WithdrawReceiptAccount {
    /// The account's data after its eight-byte discriminator, as laid out
    /// in memory.
    pub open spec fn spec_bytes(self) -> Seq<u8> {
        self.unlock_pda@ + self.nonce@ + enc_u64(self.amount) + seq![self.bump] + self.padding@
    }

    /// Where each field lies in the encoding: unlock_pda in bytes 0..32, nonce in bytes
    /// 32..64, amount in bytes 64..72, bump at byte 72, padding in bytes 73..80.
    pub proof fn lemma_field_offsets(self)
        ensures
            self.spec_bytes().len() == 80,
            self.spec_bytes().subrange(0, 32) == self.unlock_pda@,
            self.spec_bytes().subrange(32, 64) == self.nonce@,
            self.spec_bytes().subrange(64, 72) == enc_u64(self.amount),
            self.spec_bytes()[72] == self.bump,
            self.spec_bytes().subrange(73, 80) == self.padding@,
    {
        crate::codec::lemma_le_bytes();
        vstd::bytes::lemma_auto_spec_u64_to_from_le_bytes();
        assert(self.spec_bytes().subrange(0, 32) =~= self.unlock_pda@);
        assert(self.spec_bytes().subrange(32, 64) =~= self.nonce@);
        assert(self.spec_bytes().subrange(64, 72) =~= enc_u64(self.amount));
        assert(self.spec_bytes().subrange(73, 80) =~= self.padding@);
    }

    /// Bytes of account data: the discriminator, then the fields.
    pub fn get_size() -> (r: usize)
        ensures
            r == 8 + 80,
    {
        8 + 80
    }

    /// The account data: the discriminator (the account type, then seven
    /// zeros), then the fields.
    pub fn pack(&self) -> (r: Vec<u8>)
        ensures
            r@ == account_discriminator(AccountType::WithdrawReceiptAccount) + self.spec_bytes(),
    {
        let mut w: Vec<u8> = Vec::new();
        write_discriminator(&mut w, AccountType::WithdrawReceiptAccount);
        write_bytes(&mut w, self.unlock_pda.as_slice());
        write_bytes(&mut w, self.nonce.value.as_slice());
        write_u64(&mut w, self.amount);
        w.push(self.bump);
        write_bytes(&mut w, self.padding.as_slice());
        assert(w@ =~= account_discriminator(AccountType::WithdrawReceiptAccount) + self.spec_bytes());
        w
    }

    /// Reads the account from the front of `data`, which must be long
    /// enough and lead with this account type.
    pub fn unpack(data: &[u8]) -> (r: Self)
        requires
            data@.len() >= 8 + 80,
            data@[0] == AccountType::WithdrawReceiptAccount.code(),
        ensures
            r.spec_bytes() == data@.subrange(8, 88),
    {
        proof {
            lemma_le_bytes();
        }
        let unlock_pda = copy_array::<32>(data, 8);
        let nonce = hash::Hash { value: copy_array::<32>(data, 40) };
        let amount = u64_from_array(copy_array::<8>(data, 72));
        let bump = data[80];
        let padding = copy_array::<7>(data, 81);
        let x = WithdrawReceiptAccount { unlock_pda, nonce, amount, bump, padding };
        assert(x.spec_bytes() =~= data@.subrange(8, 88));
        x
    }

    /// An account is fixed by its bytes, so `unpack` reads back what
    /// `pack` wrote.
    pub proof fn lemma_bytes_determine(self, other: Self)
        requires
            self.spec_bytes() == other.spec_bytes(),
        ensures
            self == other,
    {
        lemma_le_bytes();
        lemma_enc_injective();
        let b = self.spec_bytes();
        assert(self.unlock_pda@ =~= b.subrange(0, 32));
        assert(other.unlock_pda@ =~= b.subrange(0, 32));
        lemma_array_ext(self.unlock_pda, other.unlock_pda);
        assert(self.nonce@ =~= b.subrange(32, 64));
        assert(other.nonce@ =~= b.subrange(32, 64));
        lemma_hash_ext(self.nonce, other.nonce);
        assert(enc_u64(self.amount) =~= b.subrange(64, 72));
        assert(enc_u64(other.amount) =~= b.subrange(64, 72));
        assert(self.bump == b[72] && other.bump == b[72]);
        assert(self.padding@ =~= b.subrange(73, 80));
        assert(other.padding@ =~= b.subrange(73, 80));
        lemma_array_ext(self.padding, other.padding);
    }
}
} // verus!
