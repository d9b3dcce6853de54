use code_vm_api::codec::CodecError;
use code_vm_api::error::ProgramError;
use code_vm_api::instruction::{
    CodeInstruction, CompressIx, DecompressIx, DecompressIxData, DepositIx, ExecIx, ExecIxData,
    InitMemoryIx, InitVmIx, ParsedDepositIx, ParsedInitMemoryIx, SnapshotIx, WithdrawIx,
    WithdrawIxData,
};
use code_vm_api::types::hash::Hash as Digest;
use code_vm_api::types::signature::Signature;

#[test]
fn instruction_codes() {
    assert_eq!(CodeInstruction::InitVmIx.to_u8(), 1);
    assert_eq!(CodeInstruction::UnlockIx.to_u8(), 15);
    assert_eq!(CodeInstruction::try_from_u8(8), Some(CodeInstruction::ExecIx));
    assert_eq!(CodeInstruction::try_from_u8(16), None);
}

#[test]
fn init_vm_bytes() {
    let ix = InitVmIx { lock_duration: 21, vm_bump: 254, vm_omnibus_bump: 253 };
    assert_eq!(ix.to_bytes(), vec![1, 21, 254, 253]);
    assert_eq!(InitVmIx::try_from_bytes(&[21, 254, 253]), Ok(ix));
    assert_eq!(InitVmIx::try_from_bytes(&[21, 254]), Err(ProgramError::InvalidInstructionData));
}

#[test]
fn init_memory_packing() {
    let ix = InitMemoryIx::from_struct(ParsedInitMemoryIx {
        name: [7u8; 32],
        num_accounts: 0x01020304,
        account_size: 0x0506,
        vm_memory_bump: 9,
    });
    let bytes = ix.to_bytes();
    assert_eq!(bytes.len(), 1 + 32 + 4 + 2 + 1);
    assert_eq!(&bytes[33..39], &[4, 3, 2, 1, 6, 5]);
    let parsed = InitMemoryIx::try_from_bytes(&bytes[1..]).unwrap().to_struct().unwrap();
    assert_eq!(parsed.num_accounts, 0x01020304);
    assert_eq!(parsed.account_size, 0x0506);
}

#[test]
fn deposit_and_empty_instructions() {
    let ix = DepositIx::from_struct(ParsedDepositIx { account_index: 3, amount: 1000, bump: 1 });
    let bytes = ix.to_bytes();
    assert_eq!(bytes[0], 13);
    assert_eq!(DepositIx::try_from_bytes(&bytes[1..]).unwrap().to_struct().unwrap().amount, 1000);
    assert_eq!(SnapshotIx {}.to_bytes(), vec![12]);
    assert_eq!(SnapshotIx::try_from_bytes(&[]), Ok(SnapshotIx {}));
    let c = CompressIx { account_index: [1, 0], signature: Signature::new([9u8; 64]) };
    assert_eq!(c.to_bytes().len(), 1 + 2 + 64);
}

#[test]
fn exec_ix_matches_borsh() {
    let data = ExecIxData { opcode: 11, mem_indicies: vec![1, 513], mem_banks: vec![0, 1], data: vec![9, 9, 9] };
    let expected = borsh::to_vec(&(11u8, vec![1u16, 513u16], vec![0u8, 1u8], vec![9u8, 9, 9])).unwrap();
    assert_eq!(data.try_to_vec().unwrap(), expected);
    let bytes = ExecIx::try_to_bytes(data.clone()).unwrap();
    assert_eq!(bytes[0], 8);
    assert_eq!(ExecIx::try_from_slice(&bytes[1..]).unwrap(), data);
    let mut longer = expected.clone();
    longer.push(0);
    assert_eq!(ExecIx::try_from_slice(&longer), Err(CodecError::InvalidData));
    assert_eq!(ExecIx::try_from_slice(&expected[..expected.len() - 1]), Err(CodecError::UnexpectedEnd));
}

#[test]
fn decompress_ix_matches_borsh() {
    let data = DecompressIxData {
        account_index: 7,
        packed_va: vec![1, 2, 3],
        proof: vec![Digest::new_from_array([4u8; 32]), Digest::new_from_array([5u8; 32])],
        signature: Signature::new([6u8; 64]),
    };
    let sig = [6u8; 64];
    let expected = borsh::to_vec(&(7u16, vec![1u8, 2, 3], vec![[4u8; 32], [5u8; 32]])).unwrap();
    let mut expected = expected;
    expected.extend_from_slice(&sig);
    assert_eq!(data.try_to_vec().unwrap(), expected);
    let bytes = DecompressIx::try_to_bytes(data.clone()).unwrap();
    assert_eq!(bytes[0], 10);
    assert_eq!(DecompressIx::try_from_slice(&bytes[1..]).unwrap(), data);
}

#[test]
fn withdraw_ix_variants() {
    let m = WithdrawIxData::FromMemory { account_index: 0x0102 };
    assert_eq!(m.try_to_vec().unwrap(), vec![0, 2, 1]);
    let d = WithdrawIxData::FromDeposit { bump: 200 };
    assert_eq!(d.try_to_vec().unwrap(), vec![2, 200]);
    let s = WithdrawIxData::FromStorage {
        packed_va: vec![1],
        proof: vec![],
        signature: Signature::new([0u8; 64]),
    };
    let bytes = WithdrawIx::try_to_bytes(s.clone()).unwrap();
    assert_eq!(bytes[0], 14);
    assert_eq!(bytes.len(), 1 + 1 + 4 + 1 + 4 + 64);
    assert_eq!(WithdrawIx::try_from_slice(&bytes[1..]).unwrap(), s);
    assert_eq!(WithdrawIx::try_from_slice(&[3]), Err(CodecError::InvalidData));
    assert_eq!(WithdrawIx::try_from_slice(&[]), Err(CodecError::UnexpectedEnd));
    assert_eq!(WithdrawIx::try_from_slice(&[0, 1]), Err(CodecError::UnexpectedEnd));
    assert_eq!(WithdrawIx::try_from_slice(&[2, 1, 1]), Err(CodecError::InvalidData));
}
