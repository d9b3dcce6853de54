use code_vm_api::codec::CodecError;
use code_vm_api::cvm::account::nonce::VirtualDurableNonce;
use code_vm_api::cvm::account::timelock::VirtualTimelockAccount;
use code_vm_api::cvm::account::virtual_account::VirtualAccount;
use code_vm_api::cvm::changelog::{read_changelog_data, ChangeLogData, ChangeLogEvent};
use code_vm_api::types::hash::Hash as Digest;
use code_vm_api::types::signature::Signature;

fn timelock_account() -> VirtualAccount {
    VirtualAccount::Timelock(VirtualTimelockAccount {
        owner: [1u8; 32],
        instance: Digest::new_from_array([2u8; 32]),
        token_bump: 3,
        unlock_bump: 4,
        withdraw_bump: 5,
        balance: 1_000,
        bump: 6,
    })
}

fn nonce_account() -> VirtualAccount {
    VirtualAccount::Nonce(VirtualDurableNonce { address: [9u8; 32], value: Digest::new_from_array([8u8; 32]) })
}

fn all_data() -> Vec<ChangeLogData> {
    let sig = Signature { value: [7u8; 64] };
    vec![
        ChangeLogData::Create(timelock_account()),
        ChangeLogData::Compress { storage: [3u8; 32], account: nonce_account(), signature: sig },
        ChangeLogData::Decompress { storage: [4u8; 32], account: timelock_account(), signature: sig },
        ChangeLogData::Transfer { src: timelock_account(), dst: [5u8; 32], amount: 42 },
        ChangeLogData::Withdraw { src: nonce_account(), dst: [6u8; 32] },
        ChangeLogData::TimelockUnlock { address: [10u8; 32], owner: [11u8; 32] },
        ChangeLogData::TimelockDeposit { account: timelock_account(), amount: u64::MAX },
        ChangeLogData::TimelockWithdraw { owner: [12u8; 32], dst: [13u8; 32], amount: 7 },
    ]
}

#[test]
fn changelog_event_roundtrip_every_variant() {
    for (k, d) in all_data().into_iter().enumerate() {
        let ev = ChangeLogEvent { id: Digest::new_from_array([k as u8; 32]), seq: k as u64 * 1000, data: Some(d) };
        let bytes = ev.to_bytes();
        assert_eq!(bytes[40], 1);
        assert_eq!(bytes[41] as usize, k);
        assert_eq!(ChangeLogEvent::unpack(&bytes), Ok(ev));
        let mut packed = vec![0xaa];
        ev.pack(&mut packed);
        assert_eq!(&packed[1..], &bytes[..]);
    }
}

#[test]
fn changelog_event_matches_borsh() {
    let id = [0x11u8; 32];
    let ev = ChangeLogEvent {
        id: Digest::new_from_array(id),
        seq: 0x0102030405060708,
        data: Some(ChangeLogData::TimelockWithdraw { owner: [12u8; 32], dst: [13u8; 32], amount: 7 }),
    };
    let expected = borsh::to_vec(&(id, 0x0102030405060708u64, 1u8, 7u8, [12u8; 32], [13u8; 32], 7u64)).unwrap();
    assert_eq!(ev.to_bytes(), expected);

    let none = ChangeLogEvent { id: Digest::new_from_array(id), seq: 5, data: None };
    let expected = borsh::to_vec(&(id, 5u64, Option::<u8>::None)).unwrap();
    assert_eq!(none.to_bytes(), expected);
    assert_eq!(none.to_bytes().len(), 41);
    assert_eq!(ChangeLogEvent::unpack(&expected), Ok(none));
}

#[test]
fn changelog_transfer_layout() {
    let d = ChangeLogData::Transfer { src: nonce_account(), dst: [5u8; 32], amount: 42 };
    let mut w = Vec::new();
    d.pack(&mut w);
    let mut expected = vec![3u8];
    expected.extend_from_slice(&nonce_account().pack());
    expected.extend_from_slice(&[5u8; 32]);
    expected.extend_from_slice(&42u64.to_le_bytes());
    assert_eq!(w, expected);
    assert_eq!(read_changelog_data(&w, 0), Ok((d, w.len())));
}

#[test]
fn changelog_unpack_errors() {
    let ev = ChangeLogEvent {
        id: Digest::new_from_array([1u8; 32]),
        seq: 9,
        data: Some(ChangeLogData::Create(timelock_account())),
    };
    let bytes = ev.to_bytes();
    // Every strict prefix ends early.
    for n in 0..bytes.len() {
        assert_eq!(ChangeLogEvent::unpack(&bytes[..n]), Err(CodecError::UnexpectedEnd), "prefix {}", n);
    }
    // Bytes left over.
    let mut longer = bytes.clone();
    longer.push(0);
    assert_eq!(ChangeLogEvent::unpack(&longer), Err(CodecError::InvalidData));
    // An option flag other than 0 or 1.
    let mut bad_flag = bytes.clone();
    bad_flag[40] = 2;
    assert_eq!(ChangeLogEvent::unpack(&bad_flag), Err(CodecError::InvalidData));
    // An unknown data tag.
    let mut bad_tag = bytes.clone();
    bad_tag[41] = 8;
    assert_eq!(ChangeLogEvent::unpack(&bad_tag), Err(CodecError::InvalidData));
    // An unknown virtual account tag.
    let mut bad_account = bytes.clone();
    bad_account[42] = 3;
    assert_eq!(ChangeLogEvent::unpack(&bad_account), Err(CodecError::InvalidData));
    // Nothing after a `None` flag.
    let none = ChangeLogEvent { id: Digest::new_from_array([1u8; 32]), seq: 9, data: None };
    let mut trailing = none.to_bytes();
    trailing.push(1);
    assert_eq!(ChangeLogEvent::unpack(&trailing), Err(CodecError::InvalidData));
}
