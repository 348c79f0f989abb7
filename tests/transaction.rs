use evm_loader::error::ProgramError;
use evm_loader::signature::{
    add, address_from_digest, address_from_public_key, chain_id, check_signature, check_tx,
    get_tx_sender,
};
use evm_loader::transaction::{
    get_data_opt, Bytes, DecoderError, GetTxError, SignedTransaction, Transaction,
};
use evm_loader::word::U256;
use sha3::{Digest, Keccak256};

fn legacy_tx() -> Transaction {
    Transaction {
        from: vec![0u8; 20],
        to: Some(vec![0x11u8; 20]),
        nonce: U256::from_u64(0),
        gas: U256::from_u64(21000),
        gas_price: U256::from_u64(1),
        value: U256::zero(),
        data: Bytes(vec![]),
    }
}

fn copy_tx(t: &Transaction) -> Transaction {
    Transaction {
        from: t.from.clone(),
        to: t.to.clone(),
        nonce: t.nonce.copy(),
        gas: t.gas.copy(),
        gas_price: t.gas_price.copy(),
        value: t.value.copy(),
        data: Bytes(t.data.0.clone()),
    }
}

fn keccak(data: &[u8]) -> Vec<u8> {
    Keccak256::digest(data).to_vec()
}

fn secret_one() -> libsecp256k1::SecretKey {
    let mut k = [0u8; 32];
    k[31] = 1;
    libsecp256k1::SecretKey::parse(&k).unwrap()
}

/// Signs `tx` with `key`; returns the signed transaction with a legacy v.
fn sign(tx: &Transaction, key: &libsecp256k1::SecretKey) -> SignedTransaction {
    let hash = tx.signing_hash();
    let msg = libsecp256k1::Message::parse_slice(&hash).unwrap();
    let (sig, rid) = libsecp256k1::sign(&msg, key);
    let bytes = sig.serialize();
    SignedTransaction {
        transaction: copy_tx(tx),
        v: 27 + rid.serialize() as u64,
        r: U256::from_big_endian(&bytes[..32]),
        s: U256::from_big_endian(&bytes[32..]),
    }
}

fn address_of_secret(key: &libsecp256k1::SecretKey) -> Vec<u8> {
    let pk = libsecp256k1::PublicKey::from_secret_key(key).serialize();
    keccak(&pk[1..])[12..].to_vec()
}

fn with_v(t: &SignedTransaction, v: u64) -> SignedTransaction {
    SignedTransaction { transaction: copy_tx(&t.transaction), v, r: t.r.copy(), s: t.s.copy() }
}

#[test]
fn replay_protection() {
    assert_eq!(add(0, 1), 37);
    assert_eq!(add(1, 1), 38);
    assert_eq!(chain_id(37), Some(1));
    assert_eq!(chain_id(38), Some(1));
    assert_eq!(chain_id(35), Some(0));
    assert_eq!(chain_id(27), None);
}

#[test]
fn encode_matches_rlp_crate() {
    let tx = legacy_tx();
    let mut s = rlp::RlpStream::new_list(6);
    s.append(&Vec::<u8>::new());
    s.append(&vec![1u8]);
    s.append(&vec![0x52u8, 0x08]);
    s.append(&vec![0x11u8; 20]);
    s.append(&Vec::<u8>::new());
    s.append(&Vec::<u8>::new());
    assert_eq!(tx.encode(), s.out().to_vec());

    let mut tx2 = legacy_tx();
    tx2.to = None;
    tx2.data = Bytes(vec![0x05]);
    tx2.value = U256::from_u64(0x1_0000);
    let mut s = rlp::RlpStream::new_list(6);
    s.append(&Vec::<u8>::new());
    s.append(&vec![1u8]);
    s.append(&vec![0x52u8, 0x08]);
    s.append(&Vec::<u8>::new());
    s.append(&vec![1u8, 0, 0]);
    s.append(&vec![0x05u8]);
    assert_eq!(tx2.encode(), s.out().to_vec());
}

#[test]
fn transaction_round_trip() {
    let mut tx = legacy_tx();
    tx.data = Bytes((0..100u8).collect());
    tx.value = U256::from_u64(u64::MAX);
    let decoded = Transaction::decode(&tx.encode()).unwrap();
    assert_eq!(decoded.nonce.be, tx.nonce.be);
    assert_eq!(decoded.gas.be, tx.gas.be);
    assert_eq!(decoded.gas_price.be, tx.gas_price.be);
    assert_eq!(decoded.to, tx.to);
    assert_eq!(decoded.value.be, tx.value.be);
    assert_eq!(decoded.data.0, tx.data.0);
    assert_eq!(decoded.from, vec![0u8; 20]);

    let mut creation = legacy_tx();
    creation.to = None;
    creation.data = Bytes(vec![0x00]);
    let decoded = Transaction::decode(&creation.encode()).unwrap();
    assert_eq!(decoded.to, None);
    assert_eq!(decoded.data.0, vec![0x00]);
}

#[test]
fn truncated_transaction_fails() {
    let bytes = legacy_tx().encode();
    for k in 0..bytes.len() {
        assert!(Transaction::decode(&bytes[..k]).is_err());
    }
}

#[test]
fn decode_errors() {
    assert_eq!(Transaction::decode(&[]).err(), Some(DecoderError::RlpIsTooShort));
    assert_eq!(Transaction::decode(&[0x83, 1, 2, 3]).err(), Some(DecoderError::RlpExpectedToBeList));
    assert_eq!(Transaction::decode(&[0xc1, 0x01]).err(), Some(DecoderError::RlpIncorrectListLen));
    let mut bytes = legacy_tx().encode();
    bytes.push(0);
    assert_eq!(Transaction::decode(&bytes).err(), Some(DecoderError::RlpInconsistentLengthAndData));
    // A list where the nonce should be.
    assert_eq!(
        Transaction::decode(&[0xc6, 0xc0, 0x01, 0x01, 0x80, 0x80, 0x80]).err(),
        Some(DecoderError::RlpExpectedToBeData)
    );
    // A 33-byte gas price.
    let mut big = vec![0xe6, 0x80, 0xa1];
    big.extend(std::iter::repeat(1u8).take(33));
    big.extend([0x01, 0x80, 0x80, 0x80]);
    big[0] = 0xc0 + (big.len() - 1) as u8;
    assert_eq!(Transaction::decode(&big).err(), Some(DecoderError::RlpIsTooBig));
    // A three-byte recipient.
    assert_eq!(
        Transaction::decode(&[0xc9, 0x80, 0x01, 0x01, 0x83, 1, 2, 3, 0x80, 0x80]).err(),
        Some(DecoderError::RlpInvalidLength)
    );
}

#[test]
fn legacy_signature_recovers_known_address() {
    let key = secret_one();
    let expected = address_of_secret(&key);
    // The address of private key 1.
    assert_eq!(
        expected,
        vec![
            0x7e, 0x5f, 0x45, 0x52, 0x09, 0x1a, 0x69, 0x12, 0x5d, 0x5d, 0xfc, 0xb7, 0xb8, 0xc2,
            0x65, 0x90, 0x29, 0x39, 0x5b, 0xdf
        ]
    );
    let signed = sign(&legacy_tx(), &key);
    assert_eq!(get_tx_sender(&signed).unwrap(), expected);
    assert_eq!(get_tx_sender(&signed).unwrap(), get_tx_sender(&signed).unwrap());

    let flipped = with_v(&signed, if signed.v == 27 { 28 } else { 27 });
    match get_tx_sender(&flipped) {
        Ok(a) => assert_ne!(a, expected),
        Err(e) => assert_eq!(e, GetTxError::RecoveryIdFail),
    }
}

#[test]
fn chain_protected_signature_recovers() {
    let key = secret_one();
    let signed = sign(&legacy_tx(), &key);
    // v = 37 or 38 carries chain id 1 and the same recovery id.
    let protected = with_v(&signed, signed.v + 10);
    assert_eq!(get_tx_sender(&protected).unwrap(), address_of_secret(&key));
}

#[test]
fn signed_round_trip_and_decode() {
    let signed = sign(&legacy_tx(), &secret_one());
    let decoded = SignedTransaction::decode(&signed.encode()).unwrap();
    assert_eq!(decoded.v, signed.v);
    assert_eq!(decoded.r.be, signed.r.be);
    assert_eq!(decoded.s.be, signed.s.be);
    assert_eq!(get_tx_sender(&decoded).unwrap(), address_of_secret(&secret_one()));
    assert_eq!(SignedTransaction::decode(&legacy_tx().encode()).err(), Some(DecoderError::RlpIncorrectListLen));
}

#[test]
fn flipped_bit_never_gives_the_sender() {
    let key = secret_one();
    let signed = sign(&legacy_tx(), &key);
    let sender = address_of_secret(&key);
    for byte in [0usize, 13, 31] {
        for bit in [0u8, 7] {
            let mut r = signed.r.be.clone();
            r[byte] ^= 1 << bit;
            let t = SignedTransaction { transaction: copy_tx(&signed.transaction), v: signed.v, r: U256 { be: r }, s: signed.s.copy() };
            if let Ok(a) = get_tx_sender(&t) {
                assert_ne!(a, sender);
            }
            let mut s = signed.s.be.clone();
            s[byte] ^= 1 << bit;
            let t = SignedTransaction { transaction: copy_tx(&signed.transaction), v: signed.v, r: signed.r.copy(), s: U256 { be: s } };
            if let Ok(a) = get_tx_sender(&t) {
                assert_ne!(a, sender);
            }
        }
    }
}

#[test]
fn zero_r_gives_invalid_sender() {
    for v in [0u64, 27, 30, 99] {
        let t = SignedTransaction { transaction: legacy_tx(), v, r: U256::zero(), s: U256::from_u64(5) };
        assert_eq!(get_tx_sender(&t).unwrap(), vec![0xffu8; 20]);
    }
}

#[test]
fn bad_v_is_rejected() {
    for v in [0u64, 1, 26, 29, 35, 36] {
        let t = SignedTransaction { transaction: legacy_tx(), v, r: U256::from_u64(1), s: U256::from_u64(1) };
        assert_eq!(get_tx_sender(&t).err(), Some(GetTxError::InvalidV));
    }
}

#[test]
fn out_of_range_signature_is_rejected() {
    let n = U256::secp256k1_order();
    let t = SignedTransaction { transaction: legacy_tx(), v: 27, r: n.copy(), s: U256::from_u64(1) };
    assert_eq!(get_tx_sender(&t).err(), Some(GetTxError::InvalidSignatureValues));
    let t = SignedTransaction { transaction: legacy_tx(), v: 28, r: U256::from_u64(1), s: n.copy() };
    assert_eq!(get_tx_sender(&t).err(), Some(GetTxError::InvalidSignatureValues));
    let t = SignedTransaction { transaction: legacy_tx(), v: 38, r: U256::from_u64(1), s: U256::zero() };
    assert_eq!(get_tx_sender(&t).err(), Some(GetTxError::InvalidSignatureValues));
    let t = SignedTransaction { transaction: legacy_tx(), v: 27, r: U256::from_u64(1), s: U256::from_u64(1) };
    assert_eq!(check_signature(&t), Ok(Some(27)));
    let t = SignedTransaction { transaction: legacy_tx(), v: 40, r: U256::from_u64(1), s: U256::from_u64(1) };
    assert_eq!(check_signature(&t), Ok(Some(28)));
}

#[test]
fn network_ids() {
    let t = SignedTransaction { transaction: legacy_tx(), v: 5, r: U256::zero(), s: U256::zero() };
    assert_eq!(t.network_id(), Some(5));
    let t = SignedTransaction { transaction: legacy_tx(), v: 28, r: U256::from_u64(1), s: U256::zero() };
    assert_eq!(t.network_id(), None);
    let t = SignedTransaction { transaction: legacy_tx(), v: 41, r: U256::from_u64(1), s: U256::zero() };
    assert_eq!(t.network_id(), Some(3));
}

#[test]
fn addresses_from_keys() {
    let digest: Vec<u8> = (0..32u8).collect();
    assert_eq!(address_from_digest(&digest), (12..32u8).collect::<Vec<u8>>());
    let key = secret_one();
    let pk = libsecp256k1::PublicKey::from_secret_key(&key).serialize().to_vec();
    assert_eq!(address_from_public_key(&pk), address_of_secret(&key));
}

#[test]
fn signing_hash_is_keccak_of_encoding() {
    let tx = legacy_tx();
    assert_eq!(tx.signing_hash(), keccak(&tx.encode()));
}

#[test]
fn data_fast_path() {
    let mut tx = legacy_tx();
    tx.nonce = U256::from_u64(300);
    tx.data = Bytes(vec![1, 2, 3]);
    let (nonce, to, data) = get_data_opt(&tx.encode()).unwrap();
    assert_eq!(nonce, 300);
    assert_eq!(to, vec![0x11u8; 20]);
    assert_eq!(data, vec![1, 2, 3]);
    let mut creation = legacy_tx();
    creation.to = None;
    assert!(get_data_opt(&creation.encode()).is_none());
    assert!(get_data_opt(&[0x83, 1, 2, 3]).is_none());
}

#[test]
fn check_tx_returns_sender() {
    let key = secret_one();
    let signed = sign(&legacy_tx(), &key);
    assert_eq!(check_tx(&signed.encode()), Ok(address_of_secret(&key)));
    assert_eq!(check_tx(&[0x83, 1, 2, 3]), Err(ProgramError::InvalidInstructionData));
    let bad_v = with_v(&signed, 30);
    assert_eq!(check_tx(&bad_v.encode()), Err(ProgramError::InvalidInstructionData));
}

#[test]
fn new_signed_transaction_adds_chain_id() {
    let r = [1u8; 32];
    let s = [2u8; 32];
    let t = SignedTransaction::new(legacy_tx(), 1, 0, &r, &s);
    assert_eq!(t.v, 37);
    assert_eq!(t.r.be, r.to_vec());
    assert_eq!(t.s.be, s.to_vec());
    assert_eq!(t.network_id(), Some(1));
}

#[test]
fn failed_recovery_is_an_error() {
    let tx = legacy_tx();
    let hash = tx.signing_hash();
    let msg = libsecp256k1::Message::parse_slice(&hash).unwrap();
    let mut failures = 0;
    for x in 1..40u64 {
        let r = U256::from_u64(x);
        let s = U256::from_u64(1);
        let mut sig = r.be.clone();
        sig.extend_from_slice(&s.be);
        let native = libsecp256k1::Signature::parse_standard_slice(&sig)
            .ok()
            .and_then(|sg| libsecp256k1::recover(&msg, &sg, &libsecp256k1::RecoveryId::parse(0).unwrap()).ok());
        let t = SignedTransaction { transaction: copy_tx(&tx), v: 27, r, s };
        match native {
            None => {
                failures += 1;
                assert_eq!(get_tx_sender(&t).err(), Some(GetTxError::RecoveryIdFail));
            }
            Some(pk) => assert_eq!(get_tx_sender(&t).unwrap(), keccak(&pk.serialize()[1..])[12..].to_vec()),
        }
    }
    assert!(failures > 0);
}

#[test]
fn transfer_is_authorized_by_its_signer_only() {
    let key = secret_one();
    let raw = sign(&legacy_tx(), &key).encode();
    let signer = address_of_secret(&key);
    assert_eq!(evm_loader::processor::Processor::check_transfer(&raw, &signer), Ok(()));
    assert_eq!(
        evm_loader::processor::Processor::check_transfer(&raw, &vec![0x33u8; 20]),
        Err(ProgramError::Custom(6))
    );
    assert_eq!(evm_loader::processor::Processor::check_transfer_lamports(&raw), Ok(()));
}
