use code_vm_api::consts::{id, CODE_VM, VM_OMNIBUS};
use code_vm_api::cvm::account::timelock::VirtualTimelockAccount;
use code_vm_api::pdas::{
    create_timelock_deposit_pda, find_relay_commitment_address, find_timelock_deposit_pda,
    find_vm_omnibus_pda, find_vm_pda, find_virtual_timelock_address,
};
use code_vm_api::types::hash::Hash as Digest;
use solana_program::pubkey::Pubkey as SolKey;

#[test]
fn program_id_matches_base58() {
    let expected: SolKey = "vmZ1WUq8SxjBWcaeTCvgJRZbS84R61uniFsQy5YMRTJ".parse().unwrap();
    assert_eq!(id(), expected.to_bytes());
}

#[test]
fn vm_pda_matches_solana() {
    let mint = [1u8; 32];
    let authority = [2u8; 32];
    let (addr, bump) = find_vm_pda(&mint, &authority, 21).unwrap();
    let (expected, expected_bump) = SolKey::find_program_address(
        &[&CODE_VM, &mint, &authority, &[21]],
        &SolKey::new_from_array(id()),
    );
    assert_eq!(addr, expected.to_bytes());
    assert_eq!(bump, expected_bump);

    let vm = SolKey::new_from_array(addr);
    let (omnibus, _) = find_vm_omnibus_pda(&addr).unwrap();
    let (expected, _) = SolKey::find_program_address(&[&CODE_VM, &VM_OMNIBUS, vm.as_ref()], &SolKey::new_from_array(id()));
    assert_eq!(omnibus, expected.to_bytes());
}

#[test]
fn create_agrees_with_find() {
    let vm = [3u8; 32];
    let depositor = [4u8; 32];
    let (addr, bump) = find_timelock_deposit_pda(&vm, &depositor).unwrap();
    assert_eq!(create_timelock_deposit_pda(&vm, &depositor, bump), Some(addr));
    let _ = find_relay_commitment_address(&vm, &Digest::new_from_array([5u8; 32]), &Digest::new_from_array([6u8; 32]), &depositor, 10).unwrap();
}

#[test]
fn timelock_addresses_chain() {
    let mint = [1u8; 32];
    let authority = [2u8; 32];
    let owner = [3u8; 32];
    let (timelock, bump) = find_virtual_timelock_address(&mint, &authority, &owner, 21).unwrap();
    let vta = VirtualTimelockAccount {
        owner,
        instance: Digest::new_from_array([0u8; 32]),
        token_bump: 0,
        unlock_bump: 0,
        withdraw_bump: 0,
        balance: 0,
        bump,
    };
    assert_eq!(vta.get_timelock_address(&mint, &authority, 21), Some(timelock));
}
