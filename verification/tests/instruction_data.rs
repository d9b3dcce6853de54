use code_vm_api::codec::CodecError;
use code_vm_api::external::splitter::instructions::{
    InitializePoolIxArgs, InitializePoolIxData, SplitterProgramIx, TransferWithCommitmentIxArgs,
    TransferWithCommitmentIxData, UploadProofIxArgs, UploadProofIxData, INITIALIZE_POOL_IX_DISCM,
    TRANSFER_WITH_COMMITMENT_IX_DISCM, UPLOAD_PROOF_IX_DISCM,
};
use code_vm_api::external::timelock::instructions::{
    ActivateIxArgs, ActivateIxData, BurnDustWithAuthorityIxArgs, TimelockProgramIx,
    TransferWithAuthorityIxArgs, TransferWithAuthorityIxData, ACTIVATE_IX_DISCM,
    TRANSFER_WITH_AUTHORITY_IX_DISCM,
};

fn with_discm(d: [u8; 8], rest: Vec<u8>) -> Vec<u8> {
    let mut v = d.to_vec();
    v.extend(rest);
    v
}

#[test]
fn transfer_with_authority_matches_borsh() {
    let data = TransferWithAuthorityIxData(TransferWithAuthorityIxArgs { timelock_bump: 7, amount: 1_234_567 });
    let bytes = data.try_to_vec().unwrap();
    let expected = with_discm(TRANSFER_WITH_AUTHORITY_IX_DISCM, borsh::to_vec(&(7u8, 1_234_567u64)).unwrap());
    assert_eq!(bytes, expected);
    assert_eq!(bytes.len(), 17);
    assert_eq!(TransferWithAuthorityIxData::deserialize(&bytes).unwrap(), data);
}

#[test]
fn deserialize_ignores_trailing_bytes() {
    let data = ActivateIxData(ActivateIxArgs { timelock_bump: 254 });
    let mut bytes = data.try_to_vec().unwrap();
    bytes.extend([1, 2, 3]);
    assert_eq!(ActivateIxData::deserialize(&bytes).unwrap(), data);
}

#[test]
fn deserialize_errors() {
    assert_eq!(ActivateIxData::deserialize(&[194, 203, 35]), Err(CodecError::UnexpectedEnd));
    assert_eq!(ActivateIxData::deserialize(&ACTIVATE_IX_DISCM), Err(CodecError::UnexpectedEnd));
    let wrong = with_discm(TRANSFER_WITH_AUTHORITY_IX_DISCM, vec![1]);
    assert_eq!(ActivateIxData::deserialize(&wrong), Err(CodecError::UnknownDiscriminator));
    let short = with_discm(TRANSFER_WITH_AUTHORITY_IX_DISCM, vec![1, 2, 3]);
    assert_eq!(TransferWithAuthorityIxData::deserialize(&short), Err(CodecError::UnexpectedEnd));
}

#[test]
fn initialize_pool_matches_borsh() {
    let data = InitializePoolIxData(InitializePoolIxArgs { name: "pool-é".to_string(), levels: 63 });
    let bytes = data.try_to_vec().unwrap();
    let expected = with_discm(INITIALIZE_POOL_IX_DISCM, borsh::to_vec(&("pool-é".to_string(), 63u8)).unwrap());
    assert_eq!(bytes, expected);
    assert_eq!(InitializePoolIxData::deserialize(&bytes).unwrap(), data);
}

#[test]
fn initialize_pool_rejects_bad_utf8() {
    let bytes = with_discm(INITIALIZE_POOL_IX_DISCM, vec![2, 0, 0, 0, 0xff, 0xfe, 1]);
    assert_eq!(InitializePoolIxData::deserialize(&bytes), Err(CodecError::InvalidData));
    let truncated = with_discm(INITIALIZE_POOL_IX_DISCM, vec![2, 0, 0, 0, b'a', b'b']);
    assert_eq!(InitializePoolIxData::deserialize(&truncated), Err(CodecError::UnexpectedEnd));
}

#[test]
fn upload_proof_matches_borsh() {
    let entries = vec![[9u8; 32], [10u8; 32]];
    let data = UploadProofIxData(UploadProofIxArgs {
        pool_bump: 1,
        proof_bump: 2,
        current_size: 3,
        data_size: 2,
        data: entries.clone(),
    });
    let bytes = data.try_to_vec().unwrap();
    let expected = with_discm(UPLOAD_PROOF_IX_DISCM, borsh::to_vec(&(1u8, 2u8, 3u8, 2u8, entries)).unwrap());
    assert_eq!(bytes, expected);
    assert_eq!(UploadProofIxData::deserialize(&bytes).unwrap(), data);
    assert_eq!(UploadProofIxData::deserialize(&bytes[..bytes.len() - 1]), Err(CodecError::UnexpectedEnd));
}

#[test]
fn transfer_with_commitment_matches_borsh() {
    let args = TransferWithCommitmentIxArgs { pool_bump: 5, amount: u64::MAX, transcript: [3; 32], recent_root: [4; 32] };
    let data = TransferWithCommitmentIxData(args);
    let bytes = data.try_to_vec().unwrap();
    let expected = with_discm(
        TRANSFER_WITH_COMMITMENT_IX_DISCM,
        borsh::to_vec(&(5u8, u64::MAX, [3u8; 32], [4u8; 32])).unwrap(),
    );
    assert_eq!(bytes, expected);
    assert_eq!(TransferWithCommitmentIxData::deserialize(&bytes).unwrap(), data);
}

#[test]
fn program_ix_dispatches_on_discriminator() {
    let ix = TimelockProgramIx::BurnDustWithAuthority(BurnDustWithAuthorityIxArgs { timelock_bump: 1, max_amount: 99 });
    let bytes = ix.try_to_vec().unwrap();
    assert_eq!(TimelockProgramIx::deserialize(&bytes).unwrap(), ix);
    assert_eq!(TimelockProgramIx::deserialize(&[0u8; 9]), Err(CodecError::UnknownDiscriminator));
    let pool = SplitterProgramIx::InitializePool(InitializePoolIxArgs { name: String::new(), levels: 0 });
    let bytes = pool.try_to_vec().unwrap();
    assert_eq!(bytes.len(), 8 + 4 + 1);
    assert_eq!(SplitterProgramIx::deserialize(&bytes).unwrap(), pool);
}
