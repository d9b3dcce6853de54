use code_vm_api::cvm::account::nonce::VirtualDurableNonce;
use code_vm_api::cvm::messages::airdrop::compact_airdrop_message;
use code_vm_api::cvm::messages::transfer::compact_transfer_message;
use code_vm_api::types::hash::Hash as Digest;

#[test]
fn transfer_message_is_hash_of_fields() {
    let vdn = VirtualDurableNonce { address: [7u8; 32], value: Digest::new_from_array([8u8; 32]) };
    let src = [1u8; 32];
    let dst = [2u8; 32];
    let h = compact_transfer_message(&src, &dst, 500, &vdn);
    let expected = solana_program::hash::hashv(&[
        b"transfer",
        &src,
        &dst,
        &500u64.to_le_bytes(),
        &vdn.address,
        &vdn.value.value,
    ]);
    assert_eq!(h.value, expected.to_bytes());
}

#[test]
fn airdrop_message_is_hash_of_fields() {
    let vdn = VirtualDurableNonce { address: [7u8; 32], value: Digest::new_from_array([8u8; 32]) };
    let src = [1u8; 32];
    let dsts = [[2u8; 32], [3u8; 32]];
    let h = compact_airdrop_message(&src, &dsts, 9, &vdn);
    let expected = solana_program::hash::hashv(&[
        b"airdrop",
        &src,
        &vdn.address,
        &vdn.value.value,
        &9u64.to_le_bytes(),
        &dsts[0],
        &dsts[1],
    ]);
    assert_eq!(h.value, expected.to_bytes());
}
