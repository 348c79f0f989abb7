use std::cell::Cell;

use evm_loader::backend::{
    invoke_finished, solidity_address, Account, AccountData, Apply, SolanaBackend, Basic, CallOutcome,
    ExitReason, HostAccount, StorageEntry,
};
use evm_loader::error::ProgramError;
use evm_loader::word::U256;
use sha3::{Digest, Keccak256};
use solana_sdk::pubkey::Pubkey;

fn program_id() -> Vec<u8> {
    vec![7u8; 32]
}

fn data(ether: u8, trx_count: u64, code: Vec<u8>) -> AccountData {
    AccountData {
        ether: vec![ether; 20],
        nonce: 254,
        trx_count,
        signer: vec![9u8; 32],
        code,
        storage: vec![StorageEntry { key: U256::from_u64(1), value: U256::from_u64(100) }],
    }
}

fn host(key: u8, owner: Vec<u8>, lamports: u64, d: Option<AccountData>) -> HostAccount {
    HostAccount { key: vec![key; 32], owner, lamports, data: d }
}

fn no_lookup(_k: Vec<u8>) -> Option<HostAccount> {
    None
}

fn on_chain() -> SolanaBackend {
    let infos = vec![
        host(1, program_id(), 500, Some(data(0xaa, 3, vec![0x60, 0x00]))),
        host(2, program_id(), 40, Some(data(0xbb, 1, vec![]))),
        host(3, vec![0u8; 32], 1, None),
    ];
    SolanaBackend::new(&program_id(), infos, 10, 20).unwrap()
}

#[test]
fn on_chain_backend_reads_accounts() {
    let mut b = on_chain();
    assert_eq!(b.contract_id, vec![0xaau8; 20]);
    assert_eq!(b.caller_id, vec![0xbbu8; 20]);
    assert_eq!(b.block_number(), 10);
    assert_eq!(b.block_timestamp(), 20);
    assert_eq!(b.origin(), vec![0xaau8; 20]);
    let a = vec![0xaau8; 20];
    let missing = vec![0x01u8; 20];
    assert!(b.account_exists(&a, &no_lookup));
    assert!(!b.account_exists(&missing, &no_lookup));
    assert_eq!(b.basic(&a, &no_lookup), Basic { balance: 500, nonce: 3 });
    assert_eq!(b.basic(&missing, &no_lookup), Basic { balance: 0, nonce: 0 });
    assert_eq!(b.code(&a, &no_lookup), vec![0x60, 0x00]);
    assert_eq!(b.code_size(&a, &no_lookup), 2);
    assert_eq!(b.code_size(&missing, &no_lookup), 0);
    assert_eq!(b.storage(&a, &U256::from_u64(1), &no_lookup).be, U256::from_u64(100).be);
    assert!(b.storage(&a, &U256::from_u64(2), &no_lookup).is_zero());
    assert!(b.storage(&missing, &U256::from_u64(1), &no_lookup).is_zero());
    let empty_hash: Vec<u8> = Keccak256::digest([]).to_vec();
    assert_eq!(b.code_hash(&missing, &no_lookup), empty_hash);
    assert_ne!(b.code_hash(&a, &no_lookup), empty_hash);
    assert_eq!(b.get_contract_nonce(&no_lookup), Some(254));
    assert_eq!(b.get_caller_ether(&no_lookup), Some(vec![0xbbu8; 20]));
    assert_eq!(b.get_caller_signer(&no_lookup), Some(vec![9u8; 32]));
}

#[test]
fn on_chain_backend_rejects_bad_account_data() {
    let infos = vec![host(1, program_id(), 1, None)];
    assert_eq!(SolanaBackend::new(&program_id(), infos, 0, 0).err(), Some(ProgramError::InvalidAccountData));
    let infos = vec![host(1, vec![0u8; 32], 1, None), host(2, vec![0u8; 32], 1, None)];
    let b = SolanaBackend::new(&program_id(), infos, 0, 0).unwrap();
    assert_eq!(b.contract_id, SolanaBackend::system_account());
    assert_eq!(b.caller_id, SolanaBackend::system_account());
}

#[test]
fn lazy_materialization_is_idempotent() {
    let calls = Cell::new(0u32);
    let found = |k: Vec<u8>| {
        calls.set(calls.get() + 1);
        Some(HostAccount { key: k, owner: program_id(), lamports: 77, data: Some(data(0xcc, 5, vec![])) })
    };
    let mut b = SolanaBackend::new_emulator(vec![3u8; 32], program_id(), vec![0xccu8; 20], vec![0xddu8; 20], 1, 2);
    let a = vec![0xccu8; 20];
    let first = b.resolve(&a, &found).unwrap();
    let second = b.resolve(&a, &found).unwrap();
    assert_eq!(first, second);
    assert_eq!(calls.get(), 1);
    assert_eq!(b.basic(&a, &found), Basic { balance: 77, nonce: 5 });
    assert_eq!(calls.get(), 1);
    // The looked-up key is the one derived from the base key and the address's Base58 text.
    let seed = bs58::encode(&a).into_string();
    let expected = Pubkey::create_with_seed(&Pubkey::new_from_array([3u8; 32]), &seed, &Pubkey::new_from_array([7u8; 32])).unwrap();
    assert_eq!(b.accounts[first].host_key, expected.to_bytes().to_vec());

    // An address that is not found is recorded once and not looked up again.
    let none_calls = Cell::new(0u32);
    let not_found = |_k: Vec<u8>| {
        none_calls.set(none_calls.get() + 1);
        None
    };
    let other = vec![0x01u8; 20];
    assert!(!b.account_exists(&other, &not_found));
    assert!(!b.account_exists(&other, &not_found));
    assert_eq!(none_calls.get(), 1);
    assert_eq!(b.new_accounts, vec![other]);
}

fn modify(address: Vec<u8>, balance: u64, nonce: u64, key: u64, value: u64) -> Apply {
    Apply::Modify {
        address,
        basic: Basic { balance, nonce },
        code: Some(vec![0xfe]),
        storage: vec![StorageEntry { key: U256::from_u64(key), value: U256::from_u64(value) }],
        reset_storage: false,
    }
}

#[test]
fn apply_writes_changes() {
    let mut b = on_chain();
    let a = vec![0xaau8; 20];
    let ops = vec![modify(a.clone(), 9, 4, 2, 22), Apply::Delete { address: vec![0xbbu8; 20] }, modify(SolanaBackend::system_account(), 1, 1, 1, 1)];
    assert_eq!(b.apply(ops, false, None), Ok(()));
    assert_eq!(b.basic(&a, &no_lookup), Basic { balance: 9, nonce: 4 });
    assert_eq!(b.code(&a, &no_lookup), vec![0xfe]);
    assert_eq!(b.storage(&a, &U256::from_u64(1), &no_lookup).be, U256::from_u64(100).be);
    assert_eq!(b.storage(&a, &U256::from_u64(2), &no_lookup).be, U256::from_u64(22).be);

    let reset = Apply::Modify { address: a.clone(), basic: Basic { balance: 1, nonce: 1 }, code: None, storage: vec![], reset_storage: true };
    assert_eq!(b.apply(vec![reset], false, None), Ok(()));
    assert!(b.storage(&a, &U256::from_u64(2), &no_lookup).is_zero());
    assert_eq!(b.code(&a, &no_lookup), vec![0xfe]);
}

#[test]
fn apply_is_all_or_nothing() {
    let mut b = on_chain();
    let a = vec![0xaau8; 20];
    let absent = vec![0x42u8; 20];
    let ops = vec![modify(a.clone(), 9, 4, 2, 22), modify(absent.clone(), 1, 1, 1, 1)];
    assert_eq!(b.apply(ops, false, None), Err(ProgramError::NotEnoughAccountKeys));
    assert_eq!(b.basic(&a, &no_lookup), Basic { balance: 500, nonce: 3 });
    assert!(b.storage(&a, &U256::from_u64(2), &no_lookup).is_zero());

    // The skipped address is passed over unless its flag keeps it.
    let ops = vec![modify(absent.clone(), 1, 1, 1, 1)];
    assert_eq!(b.apply(ops, false, Some((absent.clone(), false))), Ok(()));
    let ops = vec![modify(absent.clone(), 1, 1, 1, 1)];
    assert_eq!(b.apply(ops, false, Some((absent, true))), Err(ProgramError::NotEnoughAccountKeys));
}

#[test]
fn derive_call_matches_native_derivation() {
    let mut b = on_chain();
    let base = [5u8; 32];
    let owner = [6u8; 32];
    let mut input = vec![1u8, 0, 0];
    input.extend_from_slice(&base);
    input.extend_from_slice(&owner);
    input.extend_from_slice(b"test");
    let expected = Pubkey::create_with_seed(&Pubkey::new_from_array(base), "test", &Pubkey::new_from_array(owner)).unwrap();
    match b.call_inner(&SolanaBackend::system_account(), &input, &no_lookup) {
        Some(CallOutcome::Exit { reason, output }) => {
            assert_eq!(reason, ExitReason::Returned);
            assert_eq!(output, expected.to_bytes().to_vec());
        }
        _ => panic!("expected an exit"),
    }
}

#[test]
fn derive_call_translates_addresses() {
    let mut b = on_chain();
    let mut base = vec![0u8; 12];
    base.extend_from_slice(&[0xaau8; 20]);
    let mut input = vec![1u8, 1, 0];
    input.extend_from_slice(&base);
    input.extend_from_slice(&[6u8; 32]);
    input.extend_from_slice(b"seed");
    let expected = Pubkey::create_with_seed(&Pubkey::new_from_array([1u8; 32]), "seed", &Pubkey::new_from_array([6u8; 32])).unwrap();
    match b.call_inner(&SolanaBackend::system_account(), &input, &no_lookup) {
        Some(CallOutcome::Exit { reason: ExitReason::Returned, output }) => assert_eq!(output, expected.to_bytes().to_vec()),
        _ => panic!("expected a returned key"),
    }
    // An address that is not cached does not translate.
    input[15] = 0x43;
    assert!(matches!(b.call_inner(&SolanaBackend::system_account(), &input, &no_lookup), Some(CallOutcome::Exit { reason: ExitReason::InvalidRange, .. })));
    // A seed that is not UTF-8, and one that is too long.
    let mut bad = vec![1u8, 0, 0];
    bad.extend_from_slice(&[5u8; 64]);
    bad.push(0xff);
    assert!(matches!(b.call_inner(&SolanaBackend::system_account(), &bad, &no_lookup), Some(CallOutcome::Exit { reason: ExitReason::InvalidRange, .. })));
    let mut long = vec![1u8, 0, 0];
    long.extend_from_slice(&[5u8; 64]);
    long.extend_from_slice(&[b'a'; 33]);
    assert!(matches!(b.call_inner(&SolanaBackend::system_account(), &long, &no_lookup), Some(CallOutcome::Exit { reason: ExitReason::InvalidRange, .. })));
}

#[test]
fn invoke_call_builds_signed_invocation() {
    let mut b = on_chain();
    let mut input = vec![0u8];
    input.extend_from_slice(&[8u8; 32]);
    input.extend_from_slice(&[0, 2]);
    // A raw key, signer and writable.
    input.extend_from_slice(&[0, 1, 1]);
    input.extend_from_slice(&[4u8; 32]);
    // The caller's foreign address, to translate.
    input.extend_from_slice(&[1, 0, 1]);
    input.extend_from_slice(&[0u8; 12]);
    input.extend_from_slice(&[0xbbu8; 20]);
    input.extend_from_slice(&[0xde, 0xad]);
    match b.call_inner(&SolanaBackend::system_account(), &input, &no_lookup) {
        Some(CallOutcome::Invoke(c)) => {
            assert_eq!(c.program_id, vec![8u8; 32]);
            assert_eq!(c.data, vec![0xde, 0xad]);
            assert_eq!(c.accounts.len(), 2);
            assert_eq!(c.accounts[0].pubkey, vec![4u8; 32]);
            assert!(c.accounts[0].is_signer && c.accounts[0].is_writable);
            assert_eq!(c.accounts[1].pubkey, vec![2u8; 32]);
            assert!(!c.accounts[1].is_signer && c.accounts[1].is_writable);
            assert_eq!(c.signer_seeds, vec![vec![vec![0xbbu8; 20], vec![254u8]], vec![vec![0xaau8; 20], vec![254u8]]]);
        }
        _ => panic!("expected an invocation"),
    }
    assert!(matches!(invoke_finished(true), CallOutcome::Exit { reason: ExitReason::Stopped, .. }));
    assert!(matches!(invoke_finished(false), CallOutcome::Exit { reason: ExitReason::InvalidRange, .. }));
    // Too short for the accounts it announces.
    let short = input[..40].to_vec();
    assert!(matches!(b.call_inner(&SolanaBackend::system_account(), &short, &no_lookup), Some(CallOutcome::Exit { reason: ExitReason::InvalidRange, .. })));
}

#[test]
fn other_calls() {
    let mut b = on_chain();
    assert!(b.call_inner(&vec![0u8; 20], &vec![1u8], &no_lookup).is_none());
    assert!(matches!(b.call_inner(&SolanaBackend::system_account(), &vec![], &no_lookup), Some(CallOutcome::Exit { reason: ExitReason::InvalidRange, .. })));
    assert!(matches!(b.call_inner(&SolanaBackend::system_account(), &vec![2u8], &no_lookup), Some(CallOutcome::Exit { reason: ExitReason::InvalidRange, .. })));
}

#[test]
fn cached_account_fields() {
    let b = on_chain();
    let acc: &Account = &b.accounts[0];
    assert_eq!(acc.host_key, vec![1u8; 32]);
    assert_eq!(acc.lamports, 500);
}

#[test]
fn host_keys_and_addresses() {
    let mut b = on_chain();
    assert_eq!(b.get_account_solana_address(&vec![0xaau8; 20], &no_lookup), Some(vec![1u8; 32]));
    assert_eq!(b.get_account_solana_address(&vec![0x05u8; 20], &no_lookup), None);
    let key: Vec<u8> = (0..32u8).collect();
    assert_eq!(solidity_address(&key), (12..32u8).collect::<Vec<u8>>());
    assert_eq!(SolanaBackend::system_account(), {
        let mut v = vec![0xffu8];
        v.extend([0u8; 19]);
        v
    });
}
