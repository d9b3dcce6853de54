//! The header of a memory account: the VM it belongs to, its name, and
//! the packed description of its slots; the slots follow it.
use vstd::prelude::*;

use crate::codec::{
    copy_array, enc_u16, enc_u32, lemma_array_ext, lemma_enc_injective, lemma_le_bytes,
    u16_from_array, u16_to_array, u32_from_array, u32_to_array, write_bytes,
};
use crate::cvm::account::nonce::VirtualDurableNonce;
use crate::cvm::account::relay::VirtualRelayAccount;
use crate::cvm::account::timelock::VirtualTimelockAccount;
use crate::cvm::account::virtual_account::VirtualAccount;
use crate::state::{account_discriminator, write_discriminator, AccountType};
use crate::types::slice_allocator::{spec_data_size, spec_state_size, SliceAllocator};
use crate::types::Pubkey;
use vstd::bytes::{spec_u16_from_le_bytes, spec_u32_from_le_bytes};

verus! {

/// The header of a memory account.
#[derive(Clone, Copy, Debug, PartialEq, Eq)]
pub struct MemoryAccount {
    pub vm: Pubkey,
    pub name: [u8; 32],
    pub bump: u8,
    /// A `MemoryVersion` byte.
    pub version: u8,
    /// V1: the slot size (`u16`), then the slot count (`u32`); legacy: five unused bytes, then the layout byte.
    pub packed_info: [u8; 6],
}

impl MemoryAccount {
    /// The account's data after its eight-byte discriminator, as laid out
    /// in memory.
    pub open spec fn spec_bytes(self) -> Seq<u8> {
        self.vm@ + self.name@ + seq![self.bump] + seq![self.version] + self.packed_info@
    }

    /// Where each field lies in the encoding: vm in bytes 0..32, name in bytes 32..64,
    /// bump at byte 64, version at byte 65, packed_info in bytes 66..72.
    pub proof fn lemma_field_offsets(self)
        ensures
            self.spec_bytes().len() == 72,
            self.spec_bytes().subrange(0, 32) == self.vm@,
            self.spec_bytes().subrange(32, 64) == self.name@,
            self.spec_bytes()[64] == self.bump,
            self.spec_bytes()[65] == self.version,
            self.spec_bytes().subrange(66, 72) == self.packed_info@,
    {
        crate::codec::lemma_le_bytes();
        vstd::bytes::lemma_auto_spec_u64_to_from_le_bytes();
        assert(self.spec_bytes().subrange(0, 32) =~= self.vm@);
        assert(self.spec_bytes().subrange(32, 64) =~= self.name@);
        assert(self.spec_bytes().subrange(66, 72) =~= self.packed_info@);
    }

    /// Bytes of account data: the discriminator, then the fields.
    pub fn get_size() -> (r: usize)
        ensures
            r == 8 + 72,
    {
        8 + 72
    }

    /// The account data: the discriminator (the account type, then seven
    /// zeros), then the fields.
    pub fn pack(&self) -> (r: Vec<u8>)
        ensures
            r@ == account_discriminator(AccountType::MemoryAccount) + self.spec_bytes(),
    {
        let mut w: Vec<u8> = Vec::new();
        write_discriminator(&mut w, AccountType::MemoryAccount);
        write_bytes(&mut w, self.vm.as_slice());
        write_bytes(&mut w, self.name.as_slice());
        w.push(self.bump);
        w.push(self.version);
        write_bytes(&mut w, self.packed_info.as_slice());
        assert(w@ =~= account_discriminator(AccountType::MemoryAccount) + self.spec_bytes());
        w
    }

    /// Reads the account from the front of `data`, which must be long
    /// enough and lead with this account type.
    pub fn unpack(data: &[u8]) -> (r: Self)
        requires
            data@.len() >= 8 + 72,
            data@[0] == AccountType::MemoryAccount.code(),
        ensures
            r.spec_bytes() == data@.subrange(8, 80),
    {
        proof {
            lemma_le_bytes();
        }
        let vm = copy_array::<32>(data, 8);
        let name = copy_array::<32>(data, 40);
        let bump = data[72];
        let version = data[73];
        let packed_info = copy_array::<6>(data, 74);
        let x = MemoryAccount { vm, name, bump, version, packed_info };
        assert(x.spec_bytes() =~= data@.subrange(8, 80));
        x
    }

    /// An account is fixed by its bytes, so `unpack` reads back what
    /// `pack` wrote.
    pub proof fn lemma_bytes_determine(self, other: Self)
        requires
            self.spec_bytes() == other.spec_bytes(),
        ensures
            self == other,
    {
        lemma_le_bytes();
        lemma_enc_injective();
        let b = self.spec_bytes();
        assert(self.vm@ =~= b.subrange(0, 32));
        assert(other.vm@ =~= b.subrange(0, 32));
        lemma_array_ext(self.vm, other.vm);
        assert(self.name@ =~= b.subrange(32, 64));
        assert(other.name@ =~= b.subrange(32, 64));
        lemma_array_ext(self.name, other.name);
        assert(self.bump == b[64] && other.bump == b[64]);
        assert(self.version == b[65] && other.version == b[65]);
        assert(self.packed_info@ =~= b.subrange(66, 72));
        assert(other.packed_info@ =~= b.subrange(66, 72));
        lemma_array_ext(self.packed_info, other.packed_info);
    }
}
/// The legacy layout gave every memory account this many slots.
pub const NUM_ACCOUNTS: usize = 32_000;

/// How a memory account records its capacity and slot size.
#[derive(Clone, Copy, Debug, PartialEq, Eq, Structural)]
pub enum MemoryVersion {
    /// A fixed capacity, and a layout byte naming the kind of account held.
    Legacy,
    /// Capacity and slot size written in the account.
    V1,
}

impl MemoryVersion {
    pub open spec fn code(self) -> u8 {
        match self {
            MemoryVersion::Legacy => 0,
            MemoryVersion::V1 => 1,
        }
    }

    /// The version byte of each memory layout: legacy 0, version one 1.
    pub proof fn lemma_wire_codes()
        ensures
            MemoryVersion::Legacy.code() == 0,
            MemoryVersion::V1.code() == 1,
    {
    }
}

/// The slot size of a legacy layout byte: a packed timelock, nonce or relay
/// account.
pub open spec fn legacy_account_size(layout: u8) -> nat {
    if layout == 1 {
        (VirtualTimelockAccount::LEN + 1) as nat
    } else if layout == 2 {
        (VirtualDurableNonce::LEN + 1) as nat
    } else {
        (VirtualRelayAccount::LEN + 1) as nat
    }
}

impl MemoryAccount {
    /// The number of slots.
    pub open spec fn spec_capacity(self) -> nat {
        if self.version == 0 {
            NUM_ACCOUNTS as nat
        } else {
            spec_u32_from_le_bytes(self.packed_info@.subrange(2, 6)) as nat
        }
    }

    /// The size of a slot.
    pub open spec fn spec_account_size(self) -> nat {
        if self.version == 0 {
            legacy_account_size(self.packed_info[5])
        } else {
            spec_u16_from_le_bytes(self.packed_info@.subrange(0, 2)) as nat
        }
    }

    /// The version byte is known, and a legacy layout byte names a kind of
    /// account.
    pub open spec fn info_valid(self) -> bool {
        &&& self.version <= 1
        &&& self.version == 0 ==> 1 <= self.packed_info[5] <= 3
    }

    /// Account data for `num_accounts` slots of `account_size` bytes: the
    /// header, then the allocator's state and slots.
    pub fn get_size_with_data(num_accounts: usize, account_size: usize) -> (r: usize)
        requires
            num_accounts * account_size + num_accounts + 80 <= usize::MAX,
        ensures
            r == 80 + spec_state_size(num_accounts as int) + spec_data_size(
                num_accounts as int,
                account_size as int,
            ),
    {
        Self::get_size() + SliceAllocator::get_size(num_accounts, account_size)
    }

    pub fn get_version(&self) -> (r: MemoryVersion)
        requires
            self.version <= 1,
        ensures
            r.code() == self.version,
    {
        if self.version == 0 {
            MemoryVersion::Legacy
        } else {
            MemoryVersion::V1
        }
    }

    pub fn get_capacity(&self) -> (r: usize)
        requires
            self.version <= 1,
        ensures
            r == self.spec_capacity(),
    {
        proof {
            lemma_le_bytes();
        }
        match self.get_version() {
            MemoryVersion::Legacy => NUM_ACCOUNTS,
            MemoryVersion::V1 => {
                let bytes = copy_array::<4>(self.packed_info.as_slice(), 2);
                u32_from_array(bytes) as usize
            },
        }
    }

    pub fn get_account_size(&self) -> (r: usize)
        requires
            self.info_valid(),
        ensures
            r == self.spec_account_size(),
    {
        proof {
            lemma_le_bytes();
        }
        match self.get_version() {
            MemoryVersion::Legacy => {
                let layout = self.packed_info[5];
                if layout == 1 {
                    VirtualTimelockAccount::LEN + 1
                } else if layout == 2 {
                    VirtualDurableNonce::LEN + 1
                } else {
                    VirtualRelayAccount::LEN + 1
                }
            },
            MemoryVersion::V1 => {
                let bytes = copy_array::<2>(self.packed_info.as_slice(), 0);
                u16_from_array(bytes) as usize
            },
        }
    }

    /// Writes the number of slots of a V1 account.
    pub fn set_num_accounts(&mut self, num_accounts: u32)
        requires
            old(self).version == 1,
        ensures
            final(self).packed_info@ == old(self).packed_info@.take(2) + enc_u32(num_accounts),
            *final(self) == (MemoryAccount { packed_info: final(self).packed_info, ..*old(self) }),
    {
        let bytes = u32_to_array(num_accounts);
        let mut i: usize = 0;
        while i < 4
            invariant
                i <= 4,
                bytes@ == enc_u32(num_accounts),
                bytes@.len() == 4,
                self.version == old(self).version,
                self.vm == old(self).vm,
                self.name == old(self).name,
                self.bump == old(self).bump,
                forall|j: int| 0 <= j < 2 ==> self.packed_info@[j] == old(self).packed_info@[j],
                forall|j: int| 0 <= j < i ==> self.packed_info@[2 + j] == bytes@[j],
            decreases 4 - i,
        {
            self.packed_info[2 + i] = bytes[i];
            i = i + 1;
        }
        assert(self.packed_info@ =~= old(self).packed_info@.take(2) + enc_u32(num_accounts));
    }

    /// Writes the slot size of a V1 account.
    pub fn set_account_size(&mut self, account_size: u16)
        requires
            old(self).version == 1,
        ensures
            final(self).packed_info@ == enc_u16(account_size) + old(self).packed_info@.subrange(2, 6),
            *final(self) == (MemoryAccount { packed_info: final(self).packed_info, ..*old(self) }),
    {
        let bytes = u16_to_array(account_size);
        self.packed_info[0] = bytes[0];
        self.packed_info[1] = bytes[1];
        assert(self.packed_info@ =~= enc_u16(account_size) + old(self).packed_info@.subrange(2, 6));
    }

    /// The capacity and slot size recorded in a memory account's data.
    pub fn get_capacity_and_size(data: &[u8]) -> (r: (usize, usize))
        requires
            data@.len() >= 80,
            data@[0] == AccountType::MemoryAccount.code(),
            data@[73] <= 1,
            data@[73] == 0 ==> 1 <= data@[79] <= 3,
        ensures
            r.0 == (if data@[73] == 0 {
                NUM_ACCOUNTS as nat
            } else {
                spec_u32_from_le_bytes(data@.subrange(76, 80)) as nat
            }),
            r.1 == (if data@[73] == 0 {
                legacy_account_size(data@[79])
            } else {
                spec_u16_from_le_bytes(data@.subrange(74, 76)) as nat
            }),
    {
        let info = MemoryAccount::unpack(data);
        proof {
            let b = info.spec_bytes();
            assert(b[65] == info.version);
            assert(info.packed_info@ =~= b.subrange(66, 72));
            assert(b.subrange(66, 72) =~= data@.subrange(74, 80));
            assert(info.packed_info@.subrange(2, 6) =~= data@.subrange(76, 80));
            assert(info.packed_info@.subrange(0, 2) =~= data@.subrange(74, 76));
        }
        (info.get_capacity(), info.get_account_size())
    }
}

/// A legacy memory account sizes each slot to hold exactly one packed
/// virtual account of the kind its layout byte names: 1 a timelock account,
/// 2 a durable nonce, 3 a relay account.
pub proof fn lemma_legacy_slot_holds_its_kind(
    m: MemoryAccount,
    timelock: VirtualTimelockAccount,
    nonce: VirtualDurableNonce,
    relay: VirtualRelayAccount,
)
    requires
        m.version == 0,
    ensures
        m.packed_info[5] == 1 ==> m.spec_account_size() == VirtualAccount::Timelock(timelock).spec_bytes().len(),
        m.packed_info[5] == 2 ==> m.spec_account_size() == VirtualAccount::Nonce(nonce).spec_bytes().len(),
        m.packed_info[5] == 3 ==> m.spec_account_size() == VirtualAccount::Relay(relay).spec_bytes().len(),
{
    timelock.lemma_len();
    nonce.lemma_len();
    relay.lemma_len();
}

/// A V1 memory account reads back the slot count and size last written,
/// each write leaving the other value as it was.
pub proof fn lemma_memory_info_roundtrip(before: MemoryAccount, after: MemoryAccount, n: u32, s: u16)
    requires
        before.version == 1,
        after.version == 1,
    ensures
        after.packed_info@ == before.packed_info@.take(2) + enc_u32(n) ==> after.spec_capacity() == n
            && after.spec_account_size() == before.spec_account_size(),
        after.packed_info@ == enc_u16(s) + before.packed_info@.subrange(2, 6) ==> after.spec_account_size()
            == s && after.spec_capacity() == before.spec_capacity(),
{
    lemma_le_bytes();
    if after.packed_info@ == before.packed_info@.take(2) + enc_u32(n) {
        assert(after.packed_info@.subrange(2, 6) =~= enc_u32(n));
        assert(after.packed_info@.subrange(0, 2) =~= before.packed_info@.subrange(0, 2));
    }
    if after.packed_info@ == enc_u16(s) + before.packed_info@.subrange(2, 6) {
        assert(after.packed_info@.subrange(0, 2) =~= enc_u16(s));
        assert(after.packed_info@.subrange(2, 6) =~= before.packed_info@.subrange(2, 6));
    }
}

} // verus!
