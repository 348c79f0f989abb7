use vstd::prelude::*;
use crate::word::{U256, secp256k1_n};
use crate::codec::be_num;
use crate::error::ProgramError;
use crate::transaction::{
    SignedTransaction, SignedView, GetTxError, unsigned_encoding, decode_signed_spec, max_data_len,
};
use crate::external::{keccak256, keccak256_of, recover_public_key, secp256k1_recovered};

verus! {

/// The chain id that a `v` of 35 or more carries.
pub open spec fn chain_id_spec(v: u64) -> Option<u64> {
    if v >= 35 {
        Some(((v - 35) / 2) as u64)
    } else {
        None
    }
}

/// Adds a chain id into a recovery id.
pub fn add(v: u8, chain_id: u64) -> (r: u64)
    requires
        v as int + 35 + 2 * chain_id as int <= u64::MAX,
    ensures
        r == v as int + 35 + 2 * chain_id as int,
{
    v as u64 + 35 + chain_id * 2
}

/// Extracts the chain id from `v`.
pub fn chain_id(v: u64) -> (r: Option<u64>)
    ensures
        r == chain_id_spec(v),
{
    if v >= 35 {
        Some((v - 35) / 2)
    } else {
        None
    }
}

/// The address that stands for a sender that was not recovered.
pub open spec fn invalid_sender() -> Seq<u8> {
    Seq::new(20, |i: int| 0xffu8)
}

/// The recovery id (27 or 28) that `v` gives, where it is valid.
pub open spec fn recovery_v(v: u64) -> Option<int> {
    if v == 27 || v == 28 {
        Some(v as int)
    } else if v >= 37 {
        Some(v - 2 * chain_id_spec(v)->Some_0 - 8)
    } else {
        None
    }
}

/// The checks made before recovery, on v and the numbers r and s:
/// `Ok(None)` where no recovery is made and the sender is the invalid
/// address, `Ok(Some(id))` with the recovery id where recovery goes ahead.
pub open spec fn check_spec(v: u64, r: nat, s: nat) -> Result<Option<u8>, GetTxError> {
    if r == 0 {
        Ok(None)
    } else if recovery_v(v) is None {
        Err(GetTxError::InvalidV)
    } else if recovery_v(v)->Some_0 != 27 && recovery_v(v)->Some_0 != 28 {
        Ok(None)
    } else if r >= secp256k1_n() || s >= secp256k1_n() || s == 0 {
        Err(GetTxError::InvalidSignatureValues)
    } else {
        Ok(Some(recovery_v(v)->Some_0 as u8))
    }
}

/// The address of an uncompressed public key: the low 20 bytes of the
/// Keccak-256 digest of its 64 coordinate bytes.
pub open spec fn address_of_key(key: Seq<u8>) -> Seq<u8> {
    keccak256_of(key.subrange(1, 65)).subrange(12, 32)
}

/// The last 20 bytes of a 32-byte digest.
pub open spec fn address_of_digest(d: Seq<u8>) -> Seq<u8> {
    d.subrange(12, 32)
}

/// What recovering the sender of `tx` gives.
pub open spec fn sender_spec(tx: SignedView) -> Result<Seq<u8>, GetTxError> {
    match check_spec(tx.v, be_num(tx.r), be_num(tx.s)) {
        Err(e) => Err(e),
        Ok(None) => Ok(invalid_sender()),
        Ok(Some(id)) => match secp256k1_recovered(
            keccak256_of(unsigned_encoding(tx.tx)),
            tx.r + tx.s,
            id,
        ) {
            None => Err(GetTxError::RecoveryIdFail),
            Some(key) => Ok(address_of_key(key)),
        },
    }
}

impl SignedTransaction {
    /// Signs `transaction` with recovery id `v` (0 or 1 in practice) under
    /// `chain_id`, r and s given as 32 big-endian bytes each.
    pub fn new(transaction: crate::transaction::Transaction, chain_id: u64, v: u8, r: &[u8], s: &[u8]) -> (st: SignedTransaction)
        requires
            r@.len() == 32,
            s@.len() == 32,
            v as int + 35 + 2 * chain_id as int <= u64::MAX,
        ensures
            st.transaction == transaction,
            st.v == v as int + 35 + 2 * chain_id as int,
            st.r.be@ == r@,
            st.s.be@ == s@,
            st.r.wf(),
            st.s.wf(),
    {
        let v = crate::signature::add(v, chain_id);
        let r = U256::from_big_endian(r);
        let s = U256::from_big_endian(s);
        SignedTransaction { transaction, v, r, s }
    }

    /// The chain id that the signature carries: the value of `v` itself for
    /// an unsigned transaction (r and s zero), none for a legacy `v` of 27 or
    /// 28, else the chain id that `v` encodes, if any.
    pub fn network_id(&self) -> (r: Option<u64>)
        requires
            self.wf(),
        ensures
            r == (if self.r.value() == 0 && self.s.value() == 0 {
                Some(self.v)
            } else if self.v == 27 || self.v == 28 {
                None
            } else {
                chain_id_spec(self.v)
            }),
    {
        if self.r.is_zero() && self.s.is_zero() {
            Some(self.v)
        } else if self.v == 27 || self.v == 28 {
            None
        } else {
            chain_id(self.v)
        }
    }
}

/// The checks on v, r and s that come before recovery.
pub fn check_signature(tx: &SignedTransaction) -> (r: Result<Option<u8>, GetTxError>)
    requires
        tx.wf(),
    ensures
        r == check_spec(tx.v, tx.r.value(), tx.s.value()),
{
    if tx.r.is_zero() {
        return Ok(None);
    }
    let vee: u64 = if tx.v == 27 || tx.v == 28 {
        tx.v
    } else if tx.v >= 37 {
        let id = (tx.v - 35) / 2;
        tx.v - id * 2 - 8
    } else {
        return Err(GetTxError::InvalidV);
    };
    if vee != 27 && vee != 28 {
        return Ok(None);
    }
    let n = U256::secp256k1_order();
    if tx.r.ge(&n) || tx.s.ge(&n) || tx.s.is_zero() {
        return Err(GetTxError::InvalidSignatureValues);
    }
    Ok(Some(vee as u8))
}

/// The address of a recovered public key (65 bytes, uncompressed form).
pub fn address_from_public_key(key: &Vec<u8>) -> (r: Vec<u8>)
    requires
        key@.len() == 65,
    ensures
        r@ == address_of_key(key@),
{
    let coords = crate::codec::copy_range(key.as_slice(), 1, 65);
    let digest = keccak256(coords.as_slice());
    address_from_digest(&digest)
}

/// The low 20 bytes of a 32-byte digest.
pub fn address_from_digest(digest: &Vec<u8>) -> (r: Vec<u8>)
    requires
        digest@.len() == 32,
    ensures
        r@ == address_of_digest(digest@),
        r@.len() == 20,
{
    crate::codec::copy_range(digest.as_slice(), 12, 32)
}

fn invalid_address() -> (r: Vec<u8>)
    ensures
        r@ == invalid_sender(),
{
    let mut out: Vec<u8> = Vec::new();
    let mut i: usize = 0;
    while i < 20
        invariant
            i <= 20,
            out@ == Seq::new(i as nat, |k: int| 0xffu8),
        decreases 20 - i,
    {
        out.push(0xff);
        proof {
            assert(out@ =~= Seq::new((i + 1) as nat, |k: int| 0xffu8));
        }
        i = i + 1;
    }
    out
}

/// Recovers the address that signed `tx`.
pub fn get_tx_sender(tx: &SignedTransaction) -> (r: Result<Vec<u8>, GetTxError>)
    requires
        tx.wf(),
        tx.transaction.encodable(),
    ensures
        match r {
            Ok(a) => sender_spec(tx.view()) == Result::<Seq<u8>, GetTxError>::Ok(a@),
            Err(e) => sender_spec(tx.view()) == Result::<Seq<u8>, GetTxError>::Err(e),
        },
{
    let id = match check_signature(tx) {
        Err(e) => return Err(e),
        Ok(None) => return Ok(invalid_address()),
        Ok(Some(id)) => id,
    };
    let hash = tx.transaction.signing_hash();
    let mut sig = tx.r.to_big_endian();
    let s_bytes = tx.s.to_big_endian();
    crate::codec::append_bytes(&mut sig, &s_bytes);
    match recover_public_key(hash.as_slice(), sig.as_slice(), id) {
        None => Err(GetTxError::RecoveryIdFail),
        Some(key) => Ok(address_from_public_key(&key)),
    }
}

/// The sender is a function of the transaction's fields and signature:
/// two transactions that agree on them recover to the same result.
pub proof fn lemma_sender_deterministic(a: SignedTransaction, b: SignedTransaction)
    requires
        a.view() == b.view(),
    ensures
        sender_spec(a.view()) == sender_spec(b.view()),
{
}

/// With r zero no recovery is made, whatever v and s are: the sender is the
/// invalid address.
pub proof fn lemma_zero_r_invalid_sender(tx: SignedTransaction)
    requires
        tx.r.value() == 0,
    ensures
        sender_spec(tx.view()) == Result::<Seq<u8>, GetTxError>::Ok(invalid_sender()),
{
}

/// A v of 0 to 26 or 29 to 36 is an `InvalidV` error, once r is not zero.
pub proof fn lemma_bad_v_rejected(tx: SignedTransaction)
    requires
        tx.r.value() != 0,
        tx.v <= 26 || (29 <= tx.v && tx.v <= 36),
    ensures
        sender_spec(tx.view()) == Result::<Seq<u8>, GetTxError>::Err(GetTxError::InvalidV),
{
}

/// With a valid v and a nonzero r, an r or s at or above the group order is
/// an `InvalidSignatureValues` error.
pub proof fn lemma_out_of_range_rejected(tx: SignedTransaction)
    requires
        tx.v == 27 || tx.v == 28 || tx.v >= 37,
        tx.r.value() != 0,
        tx.r.value() >= secp256k1_n() || tx.s.value() >= secp256k1_n(),
    ensures
        sender_spec(tx.view()) == Result::<Seq<u8>, GetTxError>::Err(GetTxError::InvalidSignatureValues),
{
    if tx.v >= 37 {
        let c = (tx.v - 35) / 2;
        assert(tx.v - 2 * c - 8 == 27 || tx.v - 2 * c - 8 == 28);
    }
}

/// Checks a raw signed transaction before execution: it must decode and
/// its sender must be recovered. Returns the sender; any failure is
/// `InvalidInstructionData`.
pub fn check_tx(raw_tx: &[u8]) -> (r: Result<Vec<u8>, ProgramError>)
    ensures
        match decode_signed_spec(raw_tx@) {
            Err(_) => r == Result::<Vec<u8>, ProgramError>::Err(ProgramError::InvalidInstructionData),
            Ok(v) => if v.tx.data.len() > max_data_len() {
                r == Result::<Vec<u8>, ProgramError>::Err(ProgramError::InvalidInstructionData)
            } else {
                match sender_spec(v) {
                    Ok(a) => r matches Ok(s) && s@ == a,
                    Err(_) => r == Result::<Vec<u8>, ProgramError>::Err(
                        ProgramError::InvalidInstructionData,
                    ),
                }
            },
        },
{
    let tx = match SignedTransaction::decode(raw_tx) {
        Ok(t) => t,
        Err(_) => return Err(ProgramError::InvalidInstructionData),
    };
    if tx.transaction.data.0.len() > 0xffff_ffff {
        return Err(ProgramError::InvalidInstructionData);
    }
    match get_tx_sender(&tx) {
        Ok(a) => Ok(a),
        Err(_) => Err(ProgramError::InvalidInstructionData),
    }
}

} // verus!
