//! The kinds of account the VM program owns, and the discriminator that
//! leads their data.
use vstd::prelude::*;

verus! {

/// The kinds of account the VM program owns.
#[derive(Clone, Copy, Debug, PartialEq, Eq, Structural)]
pub enum AccountType {
    Unknown,
    CodeVmAccount,
    MemoryAccount,
    StorageAccount,
    RelayAccount,
    UnlockStateAccount,
    WithdrawReceiptAccount,
}

impl AccountType {
    /// The byte that stands for the account type.
    pub open spec fn code(self) -> u8 {
        match self {
            AccountType::Unknown => 0,
            AccountType::CodeVmAccount => 1,
            AccountType::MemoryAccount => 2,
            AccountType::StorageAccount => 3,
            AccountType::RelayAccount => 4,
            AccountType::UnlockStateAccount => 5,
            AccountType::WithdrawReceiptAccount => 6,
        }
    }

    /// The byte that leads each kind of account's data, in the order the
    /// program declares them: 1 for the VM up to 6 for a withdraw receipt; 0
    /// is unknown.
    pub proof fn lemma_wire_codes()
        ensures
            AccountType::Unknown.code() == 0,
            AccountType::CodeVmAccount.code() == 1,
            AccountType::MemoryAccount.code() == 2,
            AccountType::StorageAccount.code() == 3,
            AccountType::RelayAccount.code() == 4,
            AccountType::UnlockStateAccount.code() == 5,
            AccountType::WithdrawReceiptAccount.code() == 6,
    {
    }

    pub fn to_u8(self) -> (r: u8)
        ensures
            r == self.code(),
    {
        match self {
            AccountType::Unknown => 0,
            AccountType::CodeVmAccount => 1,
            AccountType::MemoryAccount => 2,
            AccountType::StorageAccount => 3,
            AccountType::RelayAccount => 4,
            AccountType::UnlockStateAccount => 5,
            AccountType::WithdrawReceiptAccount => 6,
        }
    }

    /// The account type a byte stands for, if any.
    pub fn try_from_u8(v: u8) -> (r: Option<Self>)
        ensures
            r matches Some(x) ==> x.code() == v,
            r is None ==> v > 6,
    {
        match v {
            0 => Some(AccountType::Unknown),
            1 => Some(AccountType::CodeVmAccount),
            2 => Some(AccountType::MemoryAccount),
            3 => Some(AccountType::StorageAccount),
            4 => Some(AccountType::RelayAccount),
            5 => Some(AccountType::UnlockStateAccount),
            6 => Some(AccountType::WithdrawReceiptAccount),
            _ => None,
        }
    }
}

/// The eight bytes that lead an account's data: its type, then zeros.
pub open spec fn account_discriminator(t: AccountType) -> Seq<u8> {
    seq![t.code(), 0u8, 0u8, 0u8, 0u8, 0u8, 0u8, 0u8]
}

/// Appends the discriminator of `t`.
pub fn write_discriminator(w: &mut Vec<u8>, t: AccountType)
    ensures
        final(w)@ == old(w)@ + account_discriminator(t),
{
    w.push(t.to_u8());
    let mut i: usize = 0;
    while i < 7
        invariant
            i <= 7,
            w@ == old(w)@ + account_discriminator(t).take(i + 1),
        decreases 7 - i,
    {
        w.push(0);
        i = i + 1;
        assert(w@ =~= old(w)@ + account_discriminator(t).take(i + 1));
    }
    assert(account_discriminator(t).take(8) =~= account_discriminator(t));
}

} // verus!
