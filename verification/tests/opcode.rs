use code_vm_api::error::ProgramError;
use code_vm_api::opcode::{
    AirdropOp, ExternalRelayOp, Opcode, ParsedAirdropOp, ParsedRelayOp, ParsedTransferOp, RelayOp,
    TransferOp, WithdrawOp,
};
use code_vm_api::types::hash::Hash as Digest;

#[test]
fn opcode_bytes() {
    assert_eq!(Opcode::TransferOp.to_u8(), 11);
    assert_eq!(Opcode::AirdropOp.to_u8(), 30);
    assert_eq!(Opcode::try_from_u8(20), Some(Opcode::ExternalRelayOp));
    assert_eq!(Opcode::try_from_u8(15), None);
    for v in 0..=255u8 {
        if let Some(op) = Opcode::try_from_u8(v) {
            assert_eq!(op.to_u8(), v);
        }
    }
}

#[test]
fn transfer_op_roundtrip() {
    let op = TransferOp::from_struct(ParsedTransferOp { signature: [3u8; 64], amount: 0x0102030405060708 });
    assert_eq!(op.amount, [8, 7, 6, 5, 4, 3, 2, 1]);
    let bytes = op.to_bytes();
    assert_eq!(bytes.len(), 1 + 72);
    assert_eq!(bytes[0], 11);
    assert_eq!(TransferOp::discriminator(), 11);
    let back = TransferOp::try_from_bytes(&bytes[1..]).unwrap();
    assert_eq!(back, op);
    let parsed = back.to_struct().unwrap();
    assert_eq!(parsed.amount, 0x0102030405060708);
    assert_eq!(parsed.signature, [3u8; 64]);
    assert_eq!(TransferOp::try_from_bytes(&bytes[2..]), Err(ProgramError::InvalidInstructionData));
}

#[test]
fn relay_op_layout() {
    let parsed = ParsedRelayOp {
        amount: 5,
        transcript: Digest::new_from_array([1u8; 32]),
        recent_root: Digest::new_from_array([2u8; 32]),
        commitment: [3u8; 32],
    };
    let op = RelayOp::from_struct(parsed);
    let bytes = op.to_bytes();
    assert_eq!(bytes.len(), 1 + 8 + 32 + 32 + 32);
    assert_eq!(bytes[0], 21);
    assert_eq!(bytes[1], 5);
    assert_eq!(bytes[9], 1);
    assert_eq!(bytes[41], 2);
    assert_eq!(bytes[73], 3);
    assert_eq!(RelayOp::try_from_bytes(&bytes[1..]).unwrap().to_struct().unwrap(), parsed);
    assert_eq!(ExternalRelayOp::discriminator(), 20);
}

#[test]
fn airdrop_and_withdraw_ops() {
    let op = AirdropOp::from_struct(ParsedAirdropOp { signature: [0u8; 64], amount: 1, count: 9 });
    let bytes = op.to_bytes();
    assert_eq!(bytes.len(), 74);
    assert_eq!(*bytes.last().unwrap(), 9);
    let w = WithdrawOp { signature: [4u8; 64] };
    assert_eq!(WithdrawOp::try_from_bytes(&w.to_bytes()[1..]), Ok(w));
    assert_eq!(WithdrawOp::size(), 64);
}
