use vstd::prelude::*;
use sha3::Digest;

verus! {

/// The Keccak-256 digest of a byte string.
pub uninterp spec fn keccak256_of(data: Seq<u8>) -> Seq<u8>;

/// The uncompressed public key (65 bytes) that `sig` (r and s, 32 bytes
/// each) over the 32-byte `hash` recovers to, with the recovery id given in
/// the 27-based form; `None` where recovery fails.
pub uninterp spec fn secp256k1_recovered(hash: Seq<u8>, sig: Seq<u8>, rpc_id: u8) -> Option<
    Seq<u8>,
>;

/// The Base58 text (Bitcoin alphabet) of a byte string.
pub uninterp spec fn base58_of(data: Seq<u8>) -> Seq<char>;

/// The key derived from a base key, a text seed and an owner key; `None`
/// where the derivation refuses its inputs.
pub uninterp spec fn seed_derived_key(base: Seq<u8>, seed: Seq<char>, owner: Seq<u8>) -> Option<
    Seq<u8>,
>;

/// The text that a byte string encodes, when it is valid UTF-8.
pub uninterp spec fn utf8_text(bytes: Seq<u8>) -> Option<Seq<char>>;

/// Relies on `sha3::Keccak256::digest`: the Keccak-256 digest of `data`,
/// which is 32 bytes long.
#[verifier::external_body]
pub(crate) fn keccak256(data: &[u8]) -> (r: Vec<u8>)
    ensures
        r@ == keccak256_of(data@),
        r@.len() == 32,
{
    sha3::Keccak256::digest(data).as_slice().to_vec()
}

/// Relies on `libsecp256k1::recover`: the public key that signed `hash`.
/// The arguments are carried in by `RecoveryId::parse_rpc` (27 to 30),
/// `Message::parse_slice` and `Signature::parse_standard_slice` (r and s
/// below the group order), and the key out by `PublicKey::serialize`
/// (65 bytes, uncompressed form).
#[verifier::external_body]
pub(crate) fn recover_public_key(hash: &[u8], sig: &[u8], rpc_id: u8) -> (r: Option<Vec<u8>>)
    ensures
        match r {
            Some(k) => secp256k1_recovered(hash@, sig@, rpc_id) == Some(k@) && k@.len() == 65,
            None => secp256k1_recovered(hash@, sig@, rpc_id) is None,
        },
{
    let id = libsecp256k1::RecoveryId::parse_rpc(rpc_id).ok()?;
    let message = libsecp256k1::Message::parse_slice(hash).ok()?;
    let signature = libsecp256k1::Signature::parse_standard_slice(sig).ok()?;
    let key = libsecp256k1::recover(&message, &signature, &id).ok()?;
    Some(key.serialize().to_vec())
}

/// Relies on `bs58::encode(..).into_string()`: the Base58 text of `data`.
#[verifier::external_body]
pub(crate) fn base58(data: &[u8]) -> (r: String)
    ensures
        r@ == base58_of(data@),
{
    bs58::encode(data).into_string()
}

/// Relies on `solana_sdk::pubkey::Pubkey::create_with_seed`: the key
/// derived from `base`, `seed` and `owner`; it refuses a seed longer than
/// 32 bytes, so one of more than 32 characters.
#[verifier::external_body]
pub(crate) fn create_with_seed(base: &Vec<u8>, seed: &str, owner: &Vec<u8>) -> (r: Option<Vec<u8>>)
    requires
        base@.len() == 32,
        owner@.len() == 32,
    ensures
        match r {
            Some(k) => seed_derived_key(base@, seed@, owner@) == Some(k@) && k@.len() == 32,
            None => seed_derived_key(base@, seed@, owner@) is None,
        },
        seed@.len() > 32 ==> r is None,
{
    let base = solana_sdk::pubkey::Pubkey::try_from(base.as_slice()).ok()?;
    let owner = solana_sdk::pubkey::Pubkey::try_from(owner.as_slice()).ok()?;
    let key = solana_sdk::pubkey::Pubkey::create_with_seed(&base, seed, &owner).ok()?;
    Some(key.to_bytes().to_vec())
}

/// Relies on `std::str::from_utf8`: the text that `bytes` encode, when they
/// are valid UTF-8.
#[verifier::external_body]
pub(crate) fn utf8_decode(bytes: &[u8]) -> (r: Option<String>)
    ensures
        match r {
            Some(t) => utf8_text(bytes@) == Some(t@),
            None => utf8_text(bytes@) is None,
        },
{
    match std::str::from_utf8(bytes) {
        Ok(t) => Some(t.to_string()),
        Err(_) => None,
    }
}

} // verus!
