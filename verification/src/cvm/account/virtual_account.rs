//! The accounts that live inside the VM, and their packed form: a tag byte,
//! then the account's own bytes.
use vstd::prelude::*;

use crate::cvm::account::nonce::VirtualDurableNonce;
use crate::cvm::account::relay::VirtualRelayAccount;
use crate::cvm::account::timelock::VirtualTimelockAccount;
use crate::error::ProgramError;
use crate::types::hash;
use crate::utils::sha256v;
use vstd::bytes::spec_u64_from_le_bytes;

verus! {

/// An account that lives in the VM's memory or storage.
#[derive(Clone, Copy, Debug, PartialEq, Eq)]
pub enum VirtualAccount {
    Nonce(VirtualDurableNonce),
    Timelock(VirtualTimelockAccount),
    Relay(VirtualRelayAccount),
}

/// The bytes of the account that a tag announces; none for an unknown tag.
pub open spec fn variant_size(variant: u8) -> nat {
    if variant == 0 {
        VirtualDurableNonce::LEN as nat
    } else if variant == 1 {
        VirtualTimelockAccount::LEN as nat
    } else if variant == 2 {
        VirtualRelayAccount::LEN as nat
    } else {
        0
    }
}

fn get_varient_size(variant: u8) -> (r: usize)
    ensures
        r == variant_size(variant),
{
    if variant == 0 {
        VirtualDurableNonce::LEN
    } else if variant == 1 {
        VirtualTimelockAccount::LEN
    } else if variant == 2 {
        VirtualRelayAccount::LEN
    } else {
        0
    }
}

impl VirtualAccount {
    /// The tag that leads the packed form.
    pub open spec fn tag(self) -> u8 {
        match self {
            VirtualAccount::Nonce(_) => 0,
            VirtualAccount::Timelock(_) => 1,
            VirtualAccount::Relay(_) => 2,
        }
    }

    /// The packed form: the tag, then the account's bytes.
    pub open spec fn spec_bytes(self) -> Seq<u8> {
        seq![self.tag()] + match self {
            VirtualAccount::Nonce(a) => a.spec_bytes(),
            VirtualAccount::Timelock(a) => a.spec_bytes(),
            VirtualAccount::Relay(a) => a.spec_bytes(),
        }
    }

    /// The length of the packed form.
    pub open spec fn spec_size(self) -> nat {
        1 + variant_size(self.tag())
    }

    /// The packed form of each kind: its tag at byte 0 (0 a nonce, 1 a
    /// timelock account, 2 a relay account), then the account's fields in
    /// their borsh order at fixed offsets.
    pub proof fn lemma_packed_layout(self)
        ensures
            self.spec_bytes().len() == self.spec_size(),
            match self {
                VirtualAccount::Nonce(a) => {
                    &&& self.spec_bytes()[0] == 0
                    &&& self.spec_bytes().subrange(1, 33) == a.address@
                    &&& self.spec_bytes().subrange(33, 65) == a.value@
                },
                VirtualAccount::Timelock(a) => {
                    &&& self.spec_bytes()[0] == 1
                    &&& self.spec_bytes().subrange(1, 33) == a.owner@
                    &&& self.spec_bytes().subrange(33, 65) == a.instance@
                    &&& self.spec_bytes()[65] == a.token_bump
                    &&& self.spec_bytes()[66] == a.unlock_bump
                    &&& self.spec_bytes()[67] == a.withdraw_bump
                    &&& spec_u64_from_le_bytes(self.spec_bytes().subrange(68, 76)) == a.balance
                    &&& self.spec_bytes()[76] == a.bump
                },
                VirtualAccount::Relay(a) => {
                    &&& self.spec_bytes()[0] == 2
                    &&& self.spec_bytes().subrange(1, 33) == a.target@
                    &&& self.spec_bytes().subrange(33, 65) == a.destination@
                },
            },
    {
        let b = self.spec_bytes();
        match self {
            VirtualAccount::Nonce(a) => {
                a.lemma_field_offsets();
                assert(b.subrange(1, 33) =~= a.spec_bytes().subrange(0, 32));
                assert(b.subrange(33, 65) =~= a.spec_bytes().subrange(32, 64));
            },
            VirtualAccount::Timelock(a) => {
                a.lemma_field_offsets();
                assert(b.subrange(1, 33) =~= a.spec_bytes().subrange(0, 32));
                assert(b.subrange(33, 65) =~= a.spec_bytes().subrange(32, 64));
                assert(b.subrange(68, 76) =~= a.spec_bytes().subrange(67, 75));
                assert(b[65] == a.spec_bytes()[64]);
                assert(b[66] == a.spec_bytes()[65]);
                assert(b[67] == a.spec_bytes()[66]);
                assert(b[76] == a.spec_bytes()[75]);
            },
            VirtualAccount::Relay(a) => {
                a.lemma_field_offsets();
                assert(b.subrange(1, 33) =~= a.spec_bytes().subrange(0, 32));
                assert(b.subrange(33, 65) =~= a.spec_bytes().subrange(32, 64));
            },
        }
    }

    pub fn get_size(&self) -> (r: usize)
        ensures
            r == self.spec_size(),
    {
        1 + match self {
            VirtualAccount::Nonce(_) => VirtualDurableNonce::LEN,
            VirtualAccount::Timelock(_) => VirtualTimelockAccount::LEN,
            VirtualAccount::Relay(_) => VirtualRelayAccount::LEN,
        }
    }

    pub fn is_timelock(&self) -> (r: bool)
        ensures
            r == (*self is Timelock),
    {
        matches!(self, VirtualAccount::Timelock(_))
    }

    pub fn is_relay(&self) -> (r: bool)
        ensures
            r == (*self is Relay),
    {
        matches!(self, VirtualAccount::Relay(_))
    }

    pub fn is_nonce(&self) -> (r: bool)
        ensures
            r == (*self is Nonce),
    {
        matches!(self, VirtualAccount::Nonce(_))
    }

    /// The digest of the packed form.
    pub fn get_hash(&self) -> (r: hash::Hash)
        ensures
            r@ == sha256v(seq![self.spec_bytes()]),
    {
        let bytes = self.pack();
        crate::utils::hash(bytes.as_slice())
    }

    /// The packed form.
    pub fn pack(&self) -> (r: Vec<u8>)
        ensures
            r@ == self.spec_bytes(),
            r@.len() == self.spec_size(),
    {
        let mut bytes: Vec<u8> = Vec::new();
        match self {
            VirtualAccount::Nonce(account) => {
                bytes.push(0);
                account.pack(&mut bytes);
                proof {
                    account.lemma_len();
                }
            },
            VirtualAccount::Timelock(account) => {
                bytes.push(1);
                account.pack(&mut bytes);
                proof {
                    account.lemma_len();
                }
            },
            VirtualAccount::Relay(account) => {
                bytes.push(2);
                account.pack(&mut bytes);
                proof {
                    account.lemma_len();
                }
            },
        }
        assert(bytes@ =~= self.spec_bytes());
        bytes
    }

    /// Reads a packed account from the front of `input`: refused when
    /// `input` is empty, its tag unknown, or too short for the account the
    /// tag announces; bytes past the account are ignored.
    pub fn unpack(input: &[u8]) -> (r: Result<Self, ProgramError>)
        ensures
            input@.len() < 1 ==> r == Err::<Self, ProgramError>(ProgramError::InvalidAccountData),
            input@.len() >= 1 && input@[0] > 2 ==> r == Err::<Self, ProgramError>(
                ProgramError::InvalidAccountData,
            ),
            input@.len() >= 1 && input@[0] <= 2 && input@.len() < 1 + variant_size(input@[0]) ==> r
                == Err::<Self, ProgramError>(ProgramError::InvalidAccountData),
            input@.len() >= 1 && input@[0] <= 2 && input@.len() >= 1 + variant_size(input@[0]) ==> (r matches Ok(
                x,
            ) && x.tag() == input@[0] && x.spec_bytes() == input@.take(1 + variant_size(input@[0]) as int)),
    {
        if input.len() < 1 {
            return Err(ProgramError::InvalidAccountData);
        }
        let variant = input[0];
        let data = &input[1..input.len()];
        let size = get_varient_size(variant);
        if data.len() < size {
            return Err(ProgramError::InvalidAccountData);
        }
        if variant == 0 {
            match VirtualDurableNonce::unpack(data) {
                Ok(a) => {
                    assert(input@.take(65) =~= seq![0u8] + data@.take(64));
                    Ok(VirtualAccount::Nonce(a))
                },
                Err(_) => Err(ProgramError::InvalidAccountData),
            }
        } else if variant == 1 {
            match VirtualTimelockAccount::unpack(data) {
                Ok(a) => {
                    assert(input@.take(77) =~= seq![1u8] + data@.take(76));
                    Ok(VirtualAccount::Timelock(a))
                },
                Err(_) => Err(ProgramError::InvalidAccountData),
            }
        } else if variant == 2 {
            match VirtualRelayAccount::unpack(data) {
                Ok(a) => {
                    assert(input@.take(65) =~= seq![2u8] + data@.take(64));
                    Ok(VirtualAccount::Relay(a))
                },
                Err(_) => Err(ProgramError::InvalidAccountData),
            }
        } else {
            Err(ProgramError::InvalidAccountData)
        }
    }

    /// `unpack` reads back what `pack` wrote: the packed form is as long as
    /// `get_size` says, leads with a known tag, and fixes the account.
    pub proof fn lemma_pack_unpack(self, other: Self)
        ensures
            self.spec_bytes().len() == self.spec_size(),
            self.spec_bytes()[0] == self.tag(),
            self.tag() <= 2,
            self.spec_size() == 1 + variant_size(self.tag()),
            other.spec_bytes() == self.spec_bytes() ==> other == self,
    {
        match self {
            VirtualAccount::Nonce(a) => a.lemma_len(),
            VirtualAccount::Timelock(a) => a.lemma_len(),
            VirtualAccount::Relay(a) => a.lemma_len(),
        }
        if other.spec_bytes() == self.spec_bytes() {
            assert(other.spec_bytes()[0] == self.spec_bytes()[0]);
            let so = other.spec_bytes().drop_first();
            let ss = self.spec_bytes().drop_first();
            match (self, other) {
                (VirtualAccount::Nonce(a), VirtualAccount::Nonce(b)) => {
                    assert(ss =~= a.spec_bytes());
                    assert(so =~= b.spec_bytes());
                    a.lemma_bytes_determine(b);
                },
                (VirtualAccount::Timelock(a), VirtualAccount::Timelock(b)) => {
                    assert(ss =~= a.spec_bytes());
                    assert(so =~= b.spec_bytes());
                    a.lemma_bytes_determine(b);
                },
                (VirtualAccount::Relay(a), VirtualAccount::Relay(b)) => {
                    assert(ss =~= a.spec_bytes());
                    assert(so =~= b.spec_bytes());
                    a.lemma_bytes_determine(b);
                },
                _ => {},
            }
        }
    }

    pub fn into_inner_nonce(self) -> (r: Option<VirtualDurableNonce>)
        ensures
            r == (match self {
                VirtualAccount::Nonce(a) => Some(a),
                _ => None::<VirtualDurableNonce>,
            }),
    {
        if let VirtualAccount::Nonce(inner) = self {
            Some(inner)
        } else {
            None
        }
    }

    pub fn into_inner_timelock(self) -> (r: Option<VirtualTimelockAccount>)
        ensures
            r == (match self {
                VirtualAccount::Timelock(a) => Some(a),
                _ => None::<VirtualTimelockAccount>,
            }),
    {
        if let VirtualAccount::Timelock(inner) = self {
            Some(inner)
        } else {
            None
        }
    }

    pub fn into_inner_relay(self) -> (r: Option<VirtualRelayAccount>)
        ensures
            r == (match self {
                VirtualAccount::Relay(a) => Some(a),
                _ => None::<VirtualRelayAccount>,
            }),
    {
        if let VirtualAccount::Relay(inner) = self {
            Some(inner)
        } else {
            None
        }
    }
}

} // verus!
