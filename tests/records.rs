use evm_loader::error::{MetamaskError, ProgramError};
use evm_loader::state::AccountInfo;

#[test]
fn error_codes() {
    assert_eq!(MetamaskError::InvalidInstruction.code(), 4);
    assert_eq!(ProgramError::from(MetamaskError::TokenAlreadyRegistered), ProgramError::Custom(1));
    assert_eq!(MetamaskError::decode_custom_error_to_enum(2), Some(MetamaskError::BalanceAlreadyRegistered));
    assert_eq!(MetamaskError::decode_custom_error_to_enum(5), Some(MetamaskError::EthereumTxInvalidFormat));
    assert_eq!(MetamaskError::decode_custom_error_to_enum(7), None);
}

#[test]
fn account_info_round_trip() {
    let info = AccountInfo { eth_acc: [3u8; 20], trx_count: 0x0102_0304 };
    let mut buf = vec![0xeeu8; 26];
    info.pack_into_slice(&mut buf);
    assert_eq!(&buf[20..24], &[4, 3, 2, 1]);
    assert_eq!(&buf[24..], &[0xee, 0xee]);
    let back = AccountInfo::unpack_from_slice(&buf).unwrap();
    assert_eq!(back.eth_acc, info.eth_acc);
    assert_eq!(back.trx_count, info.trx_count);
    assert!(!back.is_initialized());
    assert_eq!(AccountInfo::unpack_from_slice(&buf[..23]).err(), Some(ProgramError::InvalidAccountData));
}

use evm_loader::instruction::MetamaskInstruction;
use evm_loader::state::{BalanceInfo, TokenInfo};

#[test]
fn instruction_round_trips() {
    let all = vec![
        MetamaskInstruction::InitializeAccount { eth_acc: vec![1u8; 20], nonce: 9 },
        MetamaskInstruction::InitializeToken { token: vec![2u8; 32], eth_token: vec![3u8; 20], nonce: 8 },
        MetamaskInstruction::InitializeBalance { account: vec![4u8; 32], eth_token: vec![5u8; 20], eth_acc: vec![6u8; 20], nonce: 7 },
        MetamaskInstruction::Transfer { amount: 0x0102_0304_0506_0708, nonce: 6, eth_token: vec![7u8; 20], eth_acc: vec![8u8; 20], eth_tx: vec![0xc0] },
        MetamaskInstruction::TransferLamports { amount: 5, nonce: 5, eth_acc: vec![9u8; 20], eth_tx: vec![1, 2, 3] },
    ];
    for ins in all {
        let bytes = ins.pack();
        let back = MetamaskInstruction::unpack(&bytes).unwrap();
        assert_eq!(back.pack(), bytes);
    }
}

#[test]
fn instruction_layout() {
    let t = MetamaskInstruction::Transfer { amount: 0x0102, nonce: 6, eth_token: vec![7u8; 20], eth_acc: vec![8u8; 20], eth_tx: vec![0xc0] };
    let bytes = t.pack();
    assert_eq!(&bytes[..10], &[3, 0x02, 0x01, 0, 0, 0, 0, 0, 0, 6]);
    assert_eq!(bytes.len(), 51);
    match MetamaskInstruction::unpack(&bytes).unwrap() {
        MetamaskInstruction::Transfer { amount, nonce, eth_tx, .. } => {
            assert_eq!(amount, 0x0102);
            assert_eq!(nonce, 6);
            assert_eq!(eth_tx, vec![0xc0]);
        }
        _ => panic!("expected a transfer"),
    }
}

#[test]
fn instruction_errors() {
    let invalid = Some(ProgramError::Custom(4));
    assert_eq!(MetamaskInstruction::unpack(&[]).err(), invalid);
    assert_eq!(MetamaskInstruction::unpack(&[5, 0, 0]).err(), invalid);
    assert_eq!(MetamaskInstruction::unpack(&[0; 21]).err(), invalid);
    assert_eq!(MetamaskInstruction::unpack(&[1; 53]).err(), invalid);
    let mut extra = vec![0u8; 22];
    extra.push(0xaa);
    assert!(matches!(MetamaskInstruction::unpack(&extra), Ok(MetamaskInstruction::InitializeAccount { nonce: 0, .. })));
}

#[test]
fn token_and_balance_records() {
    let t = TokenInfo { token: [1u8; 32], eth_token: [2u8; 20] };
    let mut buf = vec![0u8; 53];
    t.pack_into_slice(&mut buf);
    let back = TokenInfo::unpack_from_slice(&buf).unwrap();
    assert_eq!(back.token, t.token);
    assert_eq!(back.eth_token, t.eth_token);
    assert!(back.is_initialized());
    assert!(!TokenInfo { token: [0u8; 32], eth_token: [2u8; 20] }.is_initialized());
    assert_eq!(TokenInfo::unpack_from_slice(&buf[..51]).err(), Some(ProgramError::InvalidAccountData));

    let b = BalanceInfo { account: [3u8; 32], eth_token: [4u8; 20], eth_acc: [5u8; 20] };
    let mut buf = vec![0u8; 72];
    b.pack_into_slice(&mut buf);
    assert_eq!(&buf[52..], &[5u8; 20]);
    let back = BalanceInfo::unpack_from_slice(&buf).unwrap();
    assert_eq!(back.account, b.account);
    assert_eq!(back.eth_acc, b.eth_acc);
    assert!(back.is_initialized());
    assert_eq!(BalanceInfo::unpack_from_slice(&buf[..71]).err(), Some(ProgramError::InvalidAccountData));
}

use evm_loader::allocator::{BumpAllocator, BOTTOM_ADDRESS, TOP_ADDRESS};

#[test]
fn bump_allocator_hands_out_downwards() {
    let mut a = BumpAllocator::new();
    assert_eq!(a.occupied(), 0);
    let p = a.allocate(10, 8).unwrap();
    assert_eq!(p, (TOP_ADDRESS - 10) & !7);
    assert_eq!(p % 8, 0);
    assert_eq!(a.occupied(), TOP_ADDRESS - p);
    let q = a.allocate(1, 1).unwrap();
    assert_eq!(q, p - 1);
    // Too large: nothing changes.
    assert_eq!(a.allocate(TOP_ADDRESS, 1), None);
    assert_eq!(a.pos, q);
    let rest = q - BOTTOM_ADDRESS;
    assert_eq!(a.allocate(rest, 1), Some(BOTTOM_ADDRESS));
    assert_eq!(a.allocate(1, 1), None);
}

use evm_loader::processor::Processor;

#[test]
fn registration_records() {
    let fresh = AccountInfo { eth_acc: [0u8; 20], trx_count: 0 };
    let r = Processor::initialize_account_record(&fresh, [4u8; 20]).unwrap();
    assert_eq!(r.eth_acc, [4u8; 20]);
    assert_eq!(r.trx_count, 1);
    assert_eq!(Processor::initialize_account_record(&r, [4u8; 20]).err(), Some(ProgramError::Custom(0)));

    let empty = TokenInfo { token: [0u8; 32], eth_token: [0u8; 20] };
    let t = Processor::initialize_token_record(&empty, [1u8; 32], [2u8; 20]).unwrap();
    assert_eq!(t.token, [1u8; 32]);
    assert_eq!(Processor::initialize_token_record(&t, [1u8; 32], [2u8; 20]).err(), Some(ProgramError::Custom(1)));

    let none = BalanceInfo { account: [0u8; 32], eth_token: [0u8; 20], eth_acc: [0u8; 20] };
    let b = Processor::initialize_balance_record(&none, [1u8; 32], [2u8; 20], [3u8; 20]).unwrap();
    assert_eq!(b.eth_acc, [3u8; 20]);
    assert_eq!(Processor::initialize_balance_record(&b, [1u8; 32], [2u8; 20], [3u8; 20]).err(), Some(ProgramError::Custom(2)));
}

#[test]
fn transfer_checks_reject_bad_transactions() {
    assert_eq!(Processor::check_transfer(&[0x83, 1, 2, 3], &vec![0u8; 20]).err(), Some(ProgramError::Custom(5)));
    assert_eq!(Processor::check_transfer_lamports(&[0x83, 1, 2, 3]).err(), Some(ProgramError::Custom(5)));
}
