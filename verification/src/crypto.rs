//! Trusted boundary to the cryptographic primitives.
//!
//! SHA3-256 and Keccak-256 come from the `sha3` crate, the post-quantum
//! lattice signature scheme from `crystals-dilithium`, the nonce sampler
//! from `rand` and the wall clock from `chrono`. Each outside call sits in
//! one wrapper whose contract states no more than the crate's own
//! documentation; the digests and the signature check are named, since the
//! results are functions of the arguments alone but have no short
//! description.

use vstd::prelude::*;

use crystals_dilithium::dilithium2::{Keypair, PublicKey};
use sha3::{Digest, Keccak256, Sha3_256};

verus! {

/// Byte length of a Dilithium2 public key.
pub const DILITHIUM_PK_LEN: usize = 1312;

/// Byte length of a Dilithium2 signature.
pub const DILITHIUM_SIG_LEN: usize = 2420;

/// The SHA3-256 digest of a byte string.
pub uninterp spec fn sha3_of(data: Seq<u8>) -> Seq<u8>;

/// The Keccak-256 digest of a byte string.
pub uninterp spec fn keccak_of(data: Seq<u8>) -> Seq<u8>;

/// Whether a Dilithium2 signature verifies for a public key and message.
pub uninterp spec fn dilithium_ok(pk: Seq<u8>, msg: Seq<u8>, sig: Seq<u8>) -> bool;

/// Relies on sha3::Sha3_256 (Digest): one SHA3-256 digest of the input,
/// always 32 bytes, a function of the input alone.
#[verifier::external_body]
pub fn sha3_256(data: &Vec<u8>) -> (r: Vec<u8>)
    ensures
        r@ == sha3_of(data@),
        r@.len() == 32,
{
    let mut h = Sha3_256::new();
    h.update(data);
    h.finalize().to_vec()
}

/// Relies on sha3::Keccak256 (Digest): one Keccak-256 digest of the input,
/// always 32 bytes, a function of the input alone.
#[verifier::external_body]
pub fn keccak_256(data: &Vec<u8>) -> (r: Vec<u8>)
    ensures
        r@ == keccak_of(data@),
        r@.len() == 32,
{
    let mut h = Keccak256::new();
    h.update(data);
    h.finalize().to_vec()
}

/// Relies on rand::random: an arbitrary 64-bit value; nothing is promised
/// of it.
#[verifier::external_body]
pub fn random_u64() -> u64 {
    rand::random::<u64>()
}

/// Relies on rand::random: 32 arbitrary bytes for a key seed; only the
/// length is promised.
#[verifier::external_body]
pub fn random_bytes_32() -> (r: Vec<u8>)
    ensures
        r@.len() == 32,
{
    rand::random::<[u8; 32]>().to_vec()
}

/// Relies on chrono::Utc::now: the current Unix time in milliseconds;
/// nothing is promised of it.
#[verifier::external_body]
pub fn now_millis_raw() -> i64 {
    chrono::Utc::now().timestamp_millis()
}

/// The current Unix time in milliseconds, clamped at zero.
pub fn current_millis() -> u64 {
    let t = now_millis_raw();
    if t < 0 {
        0
    } else {
        t as u64
    }
}

#[verifier::external_type_specification]
#[verifier::external_body]
pub struct ExKeypair(Keypair);

/// Relies on crystals_dilithium::dilithium2::Keypair::generate: a 32-byte
/// seed is a valid entropy length, so generation succeeds.
#[verifier::external_body]
pub fn dilithium_keypair(seed: &Vec<u8>) -> Keypair
    requires
        seed@.len() == 32,
{
    Keypair::generate(Some(seed.as_slice())).unwrap()
}

/// Relies on Keypair's PublicKey::to_bytes: the packed public key, always
/// `DILITHIUM_PK_LEN` bytes.
#[verifier::external_body]
pub fn dilithium_public_bytes(kp: &Keypair) -> (r: Vec<u8>)
    ensures
        r@.len() == DILITHIUM_PK_LEN,
{
    kp.public.to_bytes().to_vec()
}

/// Relies on Keypair's SecretKey::to_bytes: the packed secret key.
#[verifier::external_body]
pub fn dilithium_secret_bytes(kp: &Keypair) -> (r: Vec<u8>)
{
    kp.secret.to_bytes().to_vec()
}

/// Relies on Keypair::sign: a Dilithium2 signature, always
/// `DILITHIUM_SIG_LEN` bytes.
#[verifier::external_body]
pub fn dilithium_sign(kp: &Keypair, msg: &Vec<u8>) -> (r: Vec<u8>)
    ensures
        r@.len() == DILITHIUM_SIG_LEN,
{
    kp.sign(msg).to_vec()
}

/// Relies on PublicKey::from_bytes (succeeds on exactly
/// `DILITHIUM_PK_LEN` bytes) and PublicKey::verify (a deterministic check
/// of the packed key, message and signature bytes).
#[verifier::external_body]
pub fn dilithium_verify(pk: &Vec<u8>, msg: &Vec<u8>, sig: &Vec<u8>) -> (r: bool)
    requires
        pk@.len() == DILITHIUM_PK_LEN,
    ensures
        r == dilithium_ok(pk@, msg@, sig@),
{
    let key = PublicKey::from_bytes(pk.as_slice()).unwrap();
    key.verify(msg, sig)
}

} // verus!
