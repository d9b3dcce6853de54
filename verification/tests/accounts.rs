use code_vm_api::cvm::account::nonce::VirtualDurableNonce;
use code_vm_api::cvm::account::relay::VirtualRelayAccount;
use code_vm_api::cvm::account::timelock::VirtualTimelockAccount;
use code_vm_api::cvm::account::virtual_account::VirtualAccount;
use code_vm_api::error::ProgramError;
use code_vm_api::types::hash::Hash as Digest;

fn timelock() -> VirtualTimelockAccount {
    VirtualTimelockAccount {
        owner: [1u8; 32],
        instance: Digest::new_from_array([2u8; 32]),
        token_bump: 3,
        unlock_bump: 4,
        withdraw_bump: 5,
        balance: 0x0102030405060708,
        bump: 6,
    }
}

#[test]
fn timelock_layout_matches_borsh() {
    let t = timelock();
    let mut w = Vec::new();
    t.pack(&mut w);
    let expected = borsh::to_vec(&([1u8; 32], [2u8; 32], 3u8, 4u8, 5u8, 0x0102030405060708u64, 6u8)).unwrap();
    assert_eq!(w, expected);
    assert_eq!(w.len(), VirtualTimelockAccount::LEN);
    assert_eq!(VirtualTimelockAccount::unpack(&w).unwrap(), t);
}

#[test]
fn virtual_account_roundtrip() {
    let accounts = [
        VirtualAccount::Timelock(timelock()),
        VirtualAccount::Nonce(VirtualDurableNonce { address: [9u8; 32], value: Digest::new_from_array([8u8; 32]) }),
        VirtualAccount::Relay(VirtualRelayAccount { target: [7u8; 32], destination: [6u8; 32] }),
    ];
    let tags = [1usize, 0, 2];
    for (k, va) in accounts.iter().enumerate() {
        let tag = tags[k];
        let bytes = va.pack();
        assert_eq!(bytes.len(), va.get_size());
        assert_eq!(bytes[0] as usize, tag);
        assert_eq!(VirtualAccount::unpack(&bytes), Ok(*va));
        let mut longer = bytes.clone();
        longer.extend_from_slice(&[0xff; 10]);
        assert_eq!(VirtualAccount::unpack(&longer), Ok(*va));
        assert_eq!(VirtualAccount::unpack(&bytes[..bytes.len() - 1]), Err(ProgramError::InvalidAccountData));
    }
    assert_eq!(accounts[0].get_size(), 77);
    assert_eq!(accounts[1].get_size(), 65);
    assert!(accounts[0].is_timelock() && !accounts[0].is_nonce() && !accounts[0].is_relay());
    assert_eq!(accounts[0].into_inner_timelock(), Some(timelock()));
    assert_eq!(accounts[1].into_inner_timelock(), None);
    assert!(accounts[2].into_inner_relay().is_some());
    assert!(accounts[1].into_inner_nonce().is_some());
}

#[test]
fn virtual_account_unpack_errors() {
    assert_eq!(VirtualAccount::unpack(&[]), Err(ProgramError::InvalidAccountData));
    assert_eq!(VirtualAccount::unpack(&[3]), Err(ProgramError::InvalidAccountData));
    assert_eq!(VirtualAccount::unpack(&[0, 1, 2]), Err(ProgramError::InvalidAccountData));
}

#[test]
fn virtual_account_hash_is_sha256_of_packed() {
    let va = VirtualAccount::Timelock(timelock());
    let expected = solana_program::hash::hash(&va.pack()).to_bytes();
    assert_eq!(va.get_hash().value, expected);
}
