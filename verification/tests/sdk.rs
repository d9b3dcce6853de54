use code_vm_api::consts::id;
use code_vm_api::instruction::{ExecIxData, WithdrawIxData};
use code_vm_api::sdk::{
    relay_init, system_nonce_init, timelock_withdraw, vm_exec, vm_init, vm_memory_init,
    RENT_SYSVAR_ID, SYSTEM_PROGRAM_ID, TOKEN_PROGRAM_ID,
};

#[test]
fn well_known_ids() {
    assert_eq!(TOKEN_PROGRAM_ID, spl_token::id().to_bytes());
    assert_eq!(SYSTEM_PROGRAM_ID, solana_program::system_program::id().to_bytes());
    assert_eq!(RENT_SYSVAR_ID, solana_program::sysvar::rent::id().to_bytes());
}

#[test]
fn vm_init_accounts_and_data() {
    let ix = vm_init([1u8; 32], [2u8; 32], 21).unwrap();
    assert_eq!(ix.program_id, id());
    assert_eq!(ix.accounts.len(), 7);
    assert!(ix.accounts[0].is_signer && ix.accounts[0].is_writable);
    assert!(!ix.accounts[3].is_writable);
    assert_eq!(ix.accounts[3].pubkey, [2u8; 32]);
    assert_eq!(ix.data[0], 1);
    assert_eq!(ix.data[1], 21);
    assert_eq!(ix.data.len(), 4);
}

#[test]
fn vm_exec_fills_absent_accounts_with_program_id() {
    let ix = vm_exec(
        [1u8; 32], [2u8; 32], Some([3u8; 32]), None, None, None, None, None, None, None, None,
        11, vec![4, 5], vec![0, 0], vec![7],
    );
    assert_eq!(ix.accounts.len(), 11);
    assert_eq!(ix.accounts[2].pubkey, [3u8; 32]);
    assert_eq!(ix.accounts[3].pubkey, id());
    assert!(!ix.accounts[10].is_writable);
    let payload = ExecIxData { opcode: 11, mem_indicies: vec![4, 5], mem_banks: vec![0, 0], data: vec![7] };
    let mut expected = vec![8u8];
    expected.extend(payload.try_to_vec().unwrap());
    assert_eq!(ix.data, expected);
}

#[test]
fn other_builders() {
    let ix = system_nonce_init([1u8; 32], [2u8; 32], [3u8; 32], [4u8; 32], 0x0102);
    assert_eq!(ix.data, vec![5, 2, 1]);
    let ix = vm_memory_init([1u8; 32], [2u8; 32], 1000, 77, "mem").unwrap();
    assert_eq!(&ix.data[1..4], b"mem");
    assert_eq!(&ix.data[33..39], &[0xe8, 0x03, 0, 0, 77, 0]);
    let ix = relay_init([1u8; 32], [2u8; 32], [3u8; 32], "relay").unwrap();
    assert_eq!(ix.accounts.len(), 8);
    assert_eq!(ix.data[0], 4);
    let ix = timelock_withdraw(
        [1u8; 32], [2u8; 32], [3u8; 32], Some([4u8; 32]), Some([5u8; 32]), None, None, None,
        [6u8; 32], None, [7u8; 32], WithdrawIxData::FromMemory { account_index: 3 },
    );
    assert_eq!(ix.accounts.len(), 14);
    assert_eq!(ix.accounts[4].pubkey, [5u8; 32]);
    assert_eq!(ix.data, vec![14, 0, 3, 0]);
}
