use code_vm_api::codec::CodecError;
use code_vm_api::external::splitter::accounts::{Pool, PoolAccount, Proof, ProofAccount, POOL_ACCOUNT_DISCM, PROOF_ACCOUNT_DISCM};
use code_vm_api::external::splitter::typedefs::{DataVersion as SplitterVersion, MerkleTree};
use code_vm_api::external::timelock::accounts::{TimeLockAccount, TimeLockAccountAccount, TIME_LOCK_ACCOUNT_ACCOUNT_DISCM};
use code_vm_api::external::timelock::typedefs::{DataVersion, TimeLockState};

fn timelock(unlock_at: Option<i64>) -> TimeLockAccount {
    TimeLockAccount {
        data_version: DataVersion::Version1,
        time_authority: [1; 32],
        close_authority: [2; 32],
        mint: [3; 32],
        vault: [4; 32],
        vault_bump: 254,
        vault_state: TimeLockState::Locked,
        vault_owner: [5; 32],
        unlock_at,
        num_days_locked: 21,
    }
}

#[test]
fn timelock_account_matches_borsh() {
    for unlock_at in [None, Some(-5i64), Some(1_700_000_000)] {
        let acct = TimeLockAccountAccount(timelock(unlock_at));
        let bytes = acct.try_to_vec().unwrap();
        let expected = borsh::to_vec(&(
            TIME_LOCK_ACCOUNT_ACCOUNT_DISCM,
            3u8,
            [1u8; 32],
            [2u8; 32],
            [3u8; 32],
            [4u8; 32],
            254u8,
            3u8,
            [5u8; 32],
            unlock_at,
            21u8,
        ))
        .unwrap();
        assert_eq!(bytes, expected);
        assert_eq!(TimeLockAccountAccount::deserialize(&bytes), Ok(acct.clone()));
        let mut longer = bytes.clone();
        longer.extend_from_slice(&[9, 9, 9]);
        assert_eq!(TimeLockAccountAccount::deserialize(&longer), Ok(acct));
    }
}

#[test]
fn timelock_account_errors() {
    let bytes = TimeLockAccountAccount(timelock(Some(7))).try_to_vec().unwrap();
    assert_eq!(TimeLockAccountAccount::deserialize(&bytes[..7]), Err(CodecError::UnexpectedEnd));
    for n in 8..bytes.len() {
        assert_eq!(TimeLockAccountAccount::deserialize(&bytes[..n]), Err(CodecError::UnexpectedEnd), "prefix {}", n);
    }
    let mut bad = bytes.clone();
    bad[0] ^= 1;
    assert_eq!(TimeLockAccountAccount::deserialize(&bad), Err(CodecError::UnknownDiscriminator));
    let mut bad_version = bytes.clone();
    bad_version[8] = 4;
    assert_eq!(TimeLockAccountAccount::deserialize(&bad_version), Err(CodecError::InvalidData));
    let mut bad_state = bytes.clone();
    bad_state[8 + 1 + 128 + 1] = 5;
    assert_eq!(TimeLockAccountAccount::deserialize(&bad_state), Err(CodecError::InvalidData));
    let mut bad_option = bytes.clone();
    bad_option[8 + 1 + 128 + 1 + 1 + 32] = 2;
    assert_eq!(TimeLockAccountAccount::deserialize(&bad_option), Err(CodecError::InvalidData));
}

fn pool() -> Pool {
    Pool {
        data_version: SplitterVersion::Version1,
        authority: [1; 32],
        mint: [2; 32],
        vault: [3; 32],
        vault_bump: 250,
        name: "splitter pool".to_string(),
        history_list: vec![[7; 32], [8; 32]],
        current_index: 1,
        merkle_tree: MerkleTree {
            levels: 3,
            next_index: 5,
            root: [9; 32],
            filled_subtrees: vec![[10; 32], [11; 32], [12; 32]],
            zero_values: vec![[0; 32], [13; 32], [14; 32], [15; 32]],
        },
    }
}

#[test]
fn pool_account_matches_borsh() {
    let acct = PoolAccount(pool());
    let bytes = acct.try_to_vec().unwrap();
    let tree = (3u8, 5u64, [9u8; 32], vec![[10u8; 32], [11; 32], [12; 32]], vec![[0u8; 32], [13; 32], [14; 32], [15; 32]]);
    let expected = borsh::to_vec(&(
        POOL_ACCOUNT_DISCM,
        1u8,
        [1u8; 32],
        [2u8; 32],
        [3u8; 32],
        250u8,
        "splitter pool".to_string(),
        vec![[7u8; 32], [8; 32]],
        1u8,
        tree,
    ))
    .unwrap();
    assert_eq!(bytes, expected);
    assert_eq!(PoolAccount::deserialize(&bytes), Ok(acct.clone()));
    let mut longer = bytes.clone();
    longer.push(0);
    assert_eq!(PoolAccount::deserialize(&longer), Ok(acct));
    for n in 0..bytes.len() {
        assert!(PoolAccount::deserialize(&bytes[..n]).is_err(), "prefix {}", n);
    }
}

#[test]
fn pool_name_must_be_utf8() {
    let mut bytes = PoolAccount(pool()).try_to_vec().unwrap();
    // The name's first byte sits after the discriminator, version, three keys,
    // bump and the four-byte length.
    bytes[8 + 1 + 96 + 1 + 4] = 0xff;
    assert_eq!(PoolAccount::deserialize(&bytes), Err(CodecError::InvalidData));
}

#[test]
fn proof_account_matches_borsh() {
    let proof = Proof {
        data_version: SplitterVersion::Unknown,
        pool: [1; 32],
        pool_bump: 255,
        merkle_root: [2; 32],
        commitment: [3; 32],
        verified: true,
        size: 2,
        data: vec![[4; 32], [5; 32]],
    };
    let acct = ProofAccount(proof);
    let bytes = acct.try_to_vec().unwrap();
    let expected = borsh::to_vec(&(
        PROOF_ACCOUNT_DISCM,
        0u8,
        [1u8; 32],
        255u8,
        [2u8; 32],
        [3u8; 32],
        true,
        2u8,
        vec![[4u8; 32], [5; 32]],
    ))
    .unwrap();
    assert_eq!(bytes, expected);
    assert_eq!(ProofAccount::deserialize(&bytes), Ok(acct.clone()));
    let mut bad_bool = bytes.clone();
    bad_bool[8 + 1 + 32 + 1 + 64] = 2;
    assert_eq!(ProofAccount::deserialize(&bad_bool), Err(CodecError::InvalidData));
}
