//! The unlock state of a timelock account.
use vstd::prelude::*;

use crate::codec::{copy_array, enc_i64, enc_u64, i64_from_array, lemma_array_ext, lemma_enc_injective, lemma_i64_injective, lemma_le_bytes, write_bytes, write_i64};

use crate::state::{account_discriminator, write_discriminator, AccountType};
use crate::types::Pubkey;

verus! {

/// Where an unlock stands.
#[derive(Clone, Copy, Debug, PartialEq, Eq, Structural)]
pub enum TimelockState {
    Unknown,
    Unlocked,
    WaitingForTimeout,
}

impl TimelockState {
    /// The byte that stands for the state.
    pub open spec fn code(self) -> u8 {
        match self {
            TimelockState::Unknown => 0,
            TimelockState::Unlocked => 1,
            TimelockState::WaitingForTimeout => 2,
        }
    }

    /// The byte of each unlock state: unknown 0, unlocked 1, waiting for the
    /// timeout 2.
    pub proof fn lemma_wire_codes()
        ensures
            TimelockState::Unknown.code() == 0,
            TimelockState::Unlocked.code() == 1,
            TimelockState::WaitingForTimeout.code() == 2,
    {
    }

    pub fn to_u8(self) -> (r: u8)
        ensures
            r == self.code(),
    {
        match self {
            TimelockState::Unknown => 0,
            TimelockState::Unlocked => 1,
            TimelockState::WaitingForTimeout => 2,
        }
    }

    /// The state a byte stands for, if any.
    pub fn try_from_u8(v: u8) -> (r: Option<Self>)
        ensures
            r matches Some(x) ==> x.code() == v,
            r is None ==> v > 2,
    {
        match v {
            0 => Some(TimelockState::Unknown),
            1 => Some(TimelockState::Unlocked),
            2 => Some(TimelockState::WaitingForTimeout),
            _ => None,
        }
    }
}

/// The unlock of a virtual timelock account by its owner.
#[derive(Clone, Copy, Debug, PartialEq, Eq)]
pub struct UnlockStateAccount {
    pub vm: Pubkey,
    pub owner: Pubkey,
    pub address: Pubkey,
    /// Unix time from which the account is unlocked.
    pub unlock_at: i64,
    pub bump: u8,
    /// A `TimelockState` byte.
    pub state: u8,
    pub padding: [u8; 6],
}

impl UnlockStateAccount {
    /// The account's data after its eight-byte discriminator, as laid out
    /// in memory.
    pub open spec fn spec_bytes(self) -> Seq<u8> {
        self.vm@ + self.owner@ + self.address@ + enc_i64(self.unlock_at) + seq![self.bump] + seq![self.state] + self.padding@
    }

    /// Where each field lies in the encoding: vm in bytes 0..32, owner in bytes 32..64,
    /// address in bytes 64..96, unlock_at in bytes 96..104, bump at byte 104, state at
    /// byte 105, padding in bytes 106..112.
    pub proof fn lemma_field_offsets(self)
        ensures
            self.spec_bytes().len() == 112,
            self.spec_bytes().subrange(0, 32) == self.vm@,
            self.spec_bytes().subrange(32, 64) == self.owner@,
            self.spec_bytes().subrange(64, 96) == self.address@,
            self.spec_bytes().subrange(96, 104) == enc_i64(self.unlock_at),
            self.spec_bytes()[104] == self.bump,
            self.spec_bytes()[105] == self.state,
            self.spec_bytes().subrange(106, 112) == self.padding@,
    {
        crate::codec::lemma_le_bytes();
        vstd::bytes::lemma_auto_spec_u64_to_from_le_bytes();
        assert(self.spec_bytes().subrange(0, 32) =~= self.vm@);
        assert(self.spec_bytes().subrange(32, 64) =~= self.owner@);
        assert(self.spec_bytes().subrange(64, 96) =~= self.address@);
        assert(self.spec_bytes().subrange(96, 104) =~= enc_i64(self.unlock_at));
        assert(self.spec_bytes().subrange(106, 112) =~= self.padding@);
    }

    /// Bytes of account data: the discriminator, then the fields.
    pub fn get_size() -> (r: usize)
        ensures
            r == 8 + 112,
    {
        8 + 112
    }

    /// The account data: the discriminator (the account type, then seven
    /// zeros), then the fields.
    pub fn pack(&self) -> (r: Vec<u8>)
        ensures
            r@ == account_discriminator(AccountType::UnlockStateAccount) + self.spec_bytes(),
    {
        let mut w: Vec<u8> = Vec::new();
        write_discriminator(&mut w, AccountType::UnlockStateAccount);
        write_bytes(&mut w, self.vm.as_slice());
        write_bytes(&mut w, self.owner.as_slice());
        write_bytes(&mut w, self.address.as_slice());
        write_i64(&mut w, self.unlock_at);
        w.push(self.bump);
        w.push(self.state);
        write_bytes(&mut w, self.padding.as_slice());
        assert(enc_u64(self.unlock_at as u64) == enc_i64(self.unlock_at));
        assert(w@ =~= account_discriminator(AccountType::UnlockStateAccount) + self.spec_bytes());
        w
    }

    /// Reads the account from the front of `data`, which must be long
    /// enough and lead with this account type.
    pub fn unpack(data: &[u8]) -> (r: Self)
        requires
            data@.len() >= 8 + 112,
            data@[0] == AccountType::UnlockStateAccount.code(),
        ensures
            r.spec_bytes() == data@.subrange(8, 120),
    {
        proof {
            lemma_le_bytes();
        }
        let vm = copy_array::<32>(data, 8);
        let owner = copy_array::<32>(data, 40);
        let address = copy_array::<32>(data, 72);
        let unlock_at = i64_from_array(copy_array::<8>(data, 104));
        let bump = data[112];
        let state = data[113];
        let padding = copy_array::<6>(data, 114);
        let x = UnlockStateAccount { vm, owner, address, unlock_at, bump, state, padding };
        assert(enc_u64(x.unlock_at as u64) == enc_i64(x.unlock_at));
        assert(x.spec_bytes() =~= data@.subrange(8, 120));
        x
    }

    /// An account is fixed by its bytes, so `unpack` reads back what
    /// `pack` wrote.
    pub proof fn lemma_bytes_determine(self, other: Self)
        requires
            self.spec_bytes() == other.spec_bytes(),
        ensures
            self == other,
    {
        lemma_le_bytes();
        lemma_enc_injective();
        let b = self.spec_bytes();
        assert(self.vm@ =~= b.subrange(0, 32));
        assert(other.vm@ =~= b.subrange(0, 32));
        lemma_array_ext(self.vm, other.vm);
        assert(self.owner@ =~= b.subrange(32, 64));
        assert(other.owner@ =~= b.subrange(32, 64));
        lemma_array_ext(self.owner, other.owner);
        assert(self.address@ =~= b.subrange(64, 96));
        assert(other.address@ =~= b.subrange(64, 96));
        lemma_array_ext(self.address, other.address);
        assert(enc_u64(self.unlock_at as u64) == enc_i64(self.unlock_at));
        assert(enc_u64(other.unlock_at as u64) == enc_i64(other.unlock_at));
        assert(enc_i64(self.unlock_at) =~= b.subrange(96, 104));
        assert(enc_i64(other.unlock_at) =~= b.subrange(96, 104));
        lemma_i64_injective(self.unlock_at, other.unlock_at);
        assert(self.bump == b[104] && other.bump == b[104]);
        assert(self.state == b[105] && other.state == b[105]);
        assert(self.padding@ =~= b.subrange(106, 112));
        assert(other.padding@ =~= b.subrange(106, 112));
        lemma_array_ext(self.padding, other.padding);
    }
}
impl UnlockStateAccount {
    pub fn is_unlocked(&self) -> (r: bool)
        ensures
            r == (self.state == TimelockState::Unlocked.code()),
    {
        self.state == TimelockState::Unlocked.to_u8()
    }

    pub fn is_waiting(&self) -> (r: bool)
        ensures
            r == (self.state == TimelockState::WaitingForTimeout.code()),
    {
        self.state == TimelockState::WaitingForTimeout.to_u8()
    }
}

} // verus!
