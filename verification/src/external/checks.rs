//! Checks that the accounts handed to an instruction are the expected ones,
//! with the privileges it needs.
use vstd::prelude::*;

use crate::bytes::bytes_eq;
use crate::codec::lemma_array_ext;
use crate::error::ProgramError;
use crate::types::Pubkey;

verus! {

/// What the checks read of an account handed to an instruction: its
/// address, the program that owns it, whether it is an executable program,
/// and the privileges the transaction gave it.
#[derive(Clone, Copy, Debug, PartialEq, Eq)]
pub struct AccountView {
    pub key: Pubkey,
    pub owner: Pubkey,
    pub executable: bool,
    pub is_signer: bool,
    pub is_writable: bool,
}

/// The first pair whose actual key (left) differs from the expected one
/// (right), if any.
pub open spec fn first_key_mismatch(pairs: Seq<(Pubkey, Pubkey)>) -> Result<(), (Pubkey, Pubkey)>
    decreases pairs.len(),
{
    if pairs.len() == 0 {
        Ok(())
    } else if pairs[0].0 != pairs[0].1 {
        Err(pairs[0])
    } else {
        first_key_mismatch(pairs.drop_first())
    }
}

/// The first account without write access, if any.
pub open spec fn first_not_writable(accounts: Seq<AccountView>) -> Result<(), (AccountView, ProgramError)>
    decreases accounts.len(),
{
    if accounts.len() == 0 {
        Ok(())
    } else if !accounts[0].is_writable {
        Err((accounts[0], ProgramError::InvalidAccountData))
    } else {
        first_not_writable(accounts.drop_first())
    }
}

/// The first account that did not sign, if any.
pub open spec fn first_not_signer(accounts: Seq<AccountView>) -> Result<(), (AccountView, ProgramError)>
    decreases accounts.len(),
{
    if accounts.len() == 0 {
        Ok(())
    } else if !accounts[0].is_signer {
        Err((accounts[0], ProgramError::MissingRequiredSignature))
    } else {
        first_not_signer(accounts.drop_first())
    }
}

proof fn lemma_key_mismatch_skip(pairs: Seq<(Pubkey, Pubkey)>, i: int)
    requires
        0 <= i <= pairs.len(),
        forall|j: int| 0 <= j < i ==> (#[trigger] pairs[j]).0 == pairs[j].1,
    ensures
        first_key_mismatch(pairs) == first_key_mismatch(pairs.skip(i)),
    decreases i,
{
    if i > 0 {
        lemma_key_mismatch_skip(pairs.drop_first(), i - 1);
        assert(pairs.drop_first().skip(i - 1) =~= pairs.skip(i));
        assert(pairs[0].0 == pairs[0].1);
    } else {
        assert(pairs.skip(0) =~= pairs);
    }
}

proof fn lemma_not_writable_skip(accounts: Seq<AccountView>, i: int)
    requires
        0 <= i <= accounts.len(),
        forall|j: int| 0 <= j < i ==> (#[trigger] accounts[j]).is_writable,
    ensures
        first_not_writable(accounts) == first_not_writable(accounts.skip(i)),
    decreases i,
{
    if i > 0 {
        lemma_not_writable_skip(accounts.drop_first(), i - 1);
        assert(accounts.drop_first().skip(i - 1) =~= accounts.skip(i));
        assert(accounts[0].is_writable);
    } else {
        assert(accounts.skip(0) =~= accounts);
    }
}

proof fn lemma_not_signer_skip(accounts: Seq<AccountView>, i: int)
    requires
        0 <= i <= accounts.len(),
        forall|j: int| 0 <= j < i ==> (#[trigger] accounts[j]).is_signer,
    ensures
        first_not_signer(accounts) == first_not_signer(accounts.skip(i)),
    decreases i,
{
    if i > 0 {
        lemma_not_signer_skip(accounts.drop_first(), i - 1);
        assert(accounts.drop_first().skip(i - 1) =~= accounts.skip(i));
        assert(accounts[0].is_signer);
    } else {
        assert(accounts.skip(0) =~= accounts);
    }
}

/// Where every actual key is the expected one, no pair is reported.
pub proof fn lemma_keys_all_match(pairs: Seq<(Pubkey, Pubkey)>)
    requires
        forall|j: int| 0 <= j < pairs.len() ==> (#[trigger] pairs[j]).0 == pairs[j].1,
    ensures
        first_key_mismatch(pairs) is Ok,
{
    lemma_key_mismatch_skip(pairs, pairs.len() as int);
    assert(pairs.skip(pairs.len() as int) =~= Seq::<(Pubkey, Pubkey)>::empty());
}

/// Where every account is writable, none is reported.
pub proof fn lemma_all_writable(accounts: Seq<AccountView>)
    requires
        forall|j: int| 0 <= j < accounts.len() ==> (#[trigger] accounts[j]).is_writable,
    ensures
        first_not_writable(accounts) is Ok,
{
    lemma_not_writable_skip(accounts, accounts.len() as int);
    assert(accounts.skip(accounts.len() as int) =~= Seq::<AccountView>::empty());
}

/// Where every account signed, none is reported.
pub proof fn lemma_all_signed(accounts: Seq<AccountView>)
    requires
        forall|j: int| 0 <= j < accounts.len() ==> (#[trigger] accounts[j]).is_signer,
    ensures
        first_not_signer(accounts) is Ok,
{
    lemma_not_signer_skip(accounts, accounts.len() as int);
    assert(accounts.skip(accounts.len() as int) =~= Seq::<AccountView>::empty());
}

/// Whether two keys are equal.
pub fn keys_equal(a: &Pubkey, b: &Pubkey) -> (r: bool)
    ensures
        r == (*a == *b),
{
    let r = bytes_eq(a.as_slice(), b.as_slice());
    proof {
        if r {
            lemma_array_ext(*a, *b);
        }
    }
    r
}

/// Compares each actual key (left) with the expected one (right) in turn,
/// and reports the first pair that differs.
pub fn check_keys(pairs: &[(Pubkey, Pubkey)]) -> (r: Result<(), (Pubkey, Pubkey)>)
    ensures
        r == first_key_mismatch(pairs@),
{
    let mut i: usize = 0;
    while i < pairs.len()
        invariant
            i <= pairs@.len(),
            forall|j: int| 0 <= j < i ==> (#[trigger] pairs@[j]).0 == pairs@[j].1,
        decreases pairs.len() - i,
    {
        let (actual, expected) = pairs[i];
        if !keys_equal(&actual, &expected) {
            proof {
                lemma_key_mismatch_skip(pairs@, i as int);
                assert(pairs@.skip(i as int)[0] == pairs@[i as int]);
            }
            return Err((actual, expected));
        }
        i = i + 1;
    }
    proof {
        lemma_key_mismatch_skip(pairs@, i as int);
        assert(pairs@.skip(i as int).len() == 0);
    }
    Ok(())
}

/// Reports the first account without write access.
pub fn check_writable(accounts: &[AccountView]) -> (r: Result<(), (AccountView, ProgramError)>)
    ensures
        r == first_not_writable(accounts@),
{
    let mut i: usize = 0;
    while i < accounts.len()
        invariant
            i <= accounts@.len(),
            forall|j: int| 0 <= j < i ==> (#[trigger] accounts@[j]).is_writable,
        decreases accounts.len() - i,
    {
        if !accounts[i].is_writable {
            proof {
                lemma_not_writable_skip(accounts@, i as int);
                assert(accounts@.skip(i as int)[0] == accounts@[i as int]);
            }
            return Err((accounts[i], ProgramError::InvalidAccountData));
        }
        i = i + 1;
    }
    proof {
        lemma_not_writable_skip(accounts@, i as int);
        assert(accounts@.skip(i as int).len() == 0);
    }
    Ok(())
}

/// Reports the first account that did not sign.
pub fn check_signers(accounts: &[AccountView]) -> (r: Result<(), (AccountView, ProgramError)>)
    ensures
        r == first_not_signer(accounts@),
{
    let mut i: usize = 0;
    while i < accounts.len()
        invariant
            i <= accounts@.len(),
            forall|j: int| 0 <= j < i ==> (#[trigger] accounts@[j]).is_signer,
        decreases accounts.len() - i,
    {
        if !accounts[i].is_signer {
            proof {
                lemma_not_signer_skip(accounts@, i as int);
                assert(accounts@.skip(i as int)[0] == accounts@[i as int]);
            }
            return Err((accounts[i], ProgramError::MissingRequiredSignature));
        }
        i = i + 1;
    }
    proof {
        lemma_not_signer_skip(accounts@, i as int);
        assert(accounts@.skip(i as int).len() == 0);
    }
    Ok(())
}

} // verus!
