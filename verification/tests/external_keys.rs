use code_vm_api::codec::CodecError;
use code_vm_api::error::ProgramError;
use code_vm_api::external::checks::AccountView;
use code_vm_api::external::splitter::instructions::{
    initialize_pool_ix, initialize_pool_ix_with_program_id, InitializePoolIxArgs, InitializePoolKeys,
    INITIALIZE_POOL_IX_DISCM,
};
use code_vm_api::external::timelock::instructions::{
    initialize_ix, initialize_verify_account_keys, initialize_verify_account_privileges,
    initialize_verify_signer_privileges, initialize_verify_writable_privileges, transfer_with_authority_ix,
    InitializeAccounts, InitializeIxArgs, InitializeKeys, TransferWithAuthorityIxArgs, TransferWithAuthorityKeys,
    INITIALIZE_IX_ACCOUNTS_LEN, INITIALIZE_IX_DISCM, TRANSFER_WITH_AUTHORITY_IX_DISCM,
};
use code_vm_api::external::{splitter, timelock};

fn keys9() -> [[u8; 32]; INITIALIZE_IX_ACCOUNTS_LEN] {
    let mut k = [[0u8; 32]; INITIALIZE_IX_ACCOUNTS_LEN];
    for (i, key) in k.iter_mut().enumerate() {
        *key = [i as u8 + 1; 32];
    }
    k
}

fn views(keys: &[[u8; 32]; 9], writable: [bool; 9], signer: [bool; 9]) -> InitializeAccounts {
    let mut v = [AccountView { key: [0u8; 32], owner: [0u8; 32], executable: false, is_signer: false, is_writable: false }; 9];
    for i in 0..9 {
        v[i] = AccountView { key: keys[i], owner: [0u8; 32], executable: false, is_signer: signer[i], is_writable: writable[i] };
    }
    InitializeAccounts::from(v)
}

#[test]
fn timelock_initialize_ix_layout() {
    let keys = InitializeKeys::from(keys9());
    assert_eq!(keys.vault_owner, [3u8; 32]);
    let ix = initialize_ix(keys, InitializeIxArgs { num_days_locked: 21 }).unwrap();
    assert_eq!(ix.program_id, timelock::ID);
    assert_eq!(ix.accounts.len(), 9);
    let expected = [
        (true, false), (true, false), (false, false), (false, false), (false, true),
        (true, true), (false, false), (false, false), (false, false),
    ];
    for (i, m) in ix.accounts.iter().enumerate() {
        assert_eq!(m.pubkey, [i as u8 + 1; 32]);
        assert_eq!((m.is_writable, m.is_signer), expected[i], "account {}", i);
    }
    let mut data = INITIALIZE_IX_DISCM.to_vec();
    data.push(21);
    assert_eq!(ix.data, data);
}

#[test]
fn timelock_transfer_ix_data() {
    let k: [[u8; 32]; 8] = [[1; 32], [2; 32], [3; 32], [4; 32], [5; 32], [6; 32], [7; 32], [8; 32]];
    let ix = transfer_with_authority_ix(
        TransferWithAuthorityKeys::from(k),
        TransferWithAuthorityIxArgs { timelock_bump: 254, amount: 1_000_000 },
    )
    .unwrap();
    let mut data = TRANSFER_WITH_AUTHORITY_IX_DISCM.to_vec();
    data.push(254);
    data.extend_from_slice(&1_000_000u64.to_le_bytes());
    assert_eq!(ix.data, data);
    assert_eq!(ix.accounts.len(), 8);
}

#[test]
fn timelock_verify_account_keys_reports_first_mismatch() {
    let k = keys9();
    let all = [true; 9];
    let accounts = views(&k, all, all);
    let keys = InitializeKeys::from(accounts);
    assert_eq!(initialize_verify_account_keys(accounts, keys), Ok(()));

    let mut other = k;
    other[4] = [0xee; 32];
    other[7] = [0xdd; 32];
    let expected = InitializeKeys::from(other);
    assert_eq!(initialize_verify_account_keys(accounts, expected), Err(([5u8; 32], [0xee; 32])));
}

#[test]
fn timelock_verify_privileges() {
    let k = keys9();
    let mut writable = [false; 9];
    let mut signer = [false; 9];
    // timelock, vault, payer must be writable; time_authority and payer must sign.
    writable[0] = true;
    writable[1] = true;
    writable[5] = true;
    signer[4] = true;
    signer[5] = true;
    let ok = views(&k, writable, signer);
    assert_eq!(initialize_verify_account_privileges(ok), Ok(()));

    let mut w2 = writable;
    w2[1] = false;
    let bad_w = views(&k, w2, signer);
    let err = initialize_verify_writable_privileges(bad_w).unwrap_err();
    assert_eq!(err.0.key, [2u8; 32]);
    assert_eq!(err.1, ProgramError::InvalidAccountData);
    assert_eq!(initialize_verify_account_privileges(bad_w).unwrap_err().1, ProgramError::InvalidAccountData);

    let mut s2 = signer;
    s2[4] = false;
    let bad_s = views(&k, writable, s2);
    let err = initialize_verify_signer_privileges(bad_s).unwrap_err();
    assert_eq!(err.0.key, [5u8; 32]);
    assert_eq!(err.1, ProgramError::MissingRequiredSignature);
    // Write access is checked first.
    let both = views(&k, w2, s2);
    assert_eq!(initialize_verify_account_privileges(both).unwrap_err().0.key, [2u8; 32]);
}

#[test]
fn splitter_initialize_pool_ix() {
    let k: [[u8; 32]; 8] = [[1; 32], [2; 32], [3; 32], [4; 32], [5; 32], [6; 32], [7; 32], [8; 32]];
    let keys = InitializePoolKeys::from(k);
    let ix = initialize_pool_ix(keys, InitializePoolIxArgs { name: "pool".to_string(), levels: 63 }).unwrap();
    assert_eq!(ix.program_id, splitter::ID);
    let mut data = INITIALIZE_POOL_IX_DISCM.to_vec();
    data.extend_from_slice(&4u32.to_le_bytes());
    data.extend_from_slice(b"pool");
    data.push(63);
    assert_eq!(ix.data, data);
    let signers: Vec<bool> = ix.accounts.iter().map(|m| m.is_signer).collect();
    assert_eq!(signers, vec![false, false, false, true, true, false, false, false]);

    let other = initialize_pool_ix_with_program_id([9u8; 32], keys, InitializePoolIxArgs { name: String::new(), levels: 1 })
        .unwrap();
    assert_eq!(other.program_id, [9u8; 32]);
    let _ = CodecError::InvalidData;
}
