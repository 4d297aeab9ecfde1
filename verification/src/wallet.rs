//! A node's signing identity: a Dilithium keypair with its hex address.

use vstd::prelude::*;

use crystals_dilithium::dilithium2::Keypair;

use crate::bytesutil::bytes_clone;
use crate::crypto::dilithium_keypair;
use crate::crypto::dilithium_ok;
use crate::crypto::dilithium_public_bytes;
use crate::crypto::dilithium_secret_bytes;
use crate::crypto::dilithium_sign;
use crate::crypto::dilithium_verify;
use crate::crypto::random_bytes_32;
use crate::crypto::DILITHIUM_PK_LEN;
use crate::crypto::DILITHIUM_SIG_LEN;
use crate::hexstr::hex_encode;
use crate::hexstr::hex_seq;

verus! {

/// A keypair together with the packed public key and its hex address.
pub struct Wallet {
    keypair: Keypair,
    pk_bytes: Vec<u8>,
    address: Vec<u8>,
}

impl Wallet {
    /// The packed public key bytes.
    pub closed spec fn pk_view(&self) -> Seq<u8> {
        self.pk_bytes@
    }

    /// The hex address, as ASCII bytes.
    pub closed spec fn address_view(&self) -> Seq<u8> {
        self.address@
    }

    /// The address is the hex encoding of the packed public key.
    pub open spec fn wf(&self) -> bool {
        &&& self.pk_view().len() == DILITHIUM_PK_LEN
        &&& self.address_view() == hex_seq(self.pk_view())
    }

    /// Generate a fresh wallet from a random seed.
    pub fn new() -> (w: Wallet)
        ensures
            w.wf(),
    {
        let seed = random_bytes_32();
        let keypair = dilithium_keypair(&seed);
        let pk_bytes = dilithium_public_bytes(&keypair);
        let address = hex_encode(&pk_bytes);
        Wallet { keypair, pk_bytes, address }
    }

    /// Sign a message with the wallet's secret key.
    pub fn sign_message(&self, msg: &Vec<u8>) -> (r: Vec<u8>)
        ensures
            r@.len() == DILITHIUM_SIG_LEN,
    {
        dilithium_sign(&self.keypair, msg)
    }

    /// Verify a signature against the wallet's own public key.
    pub fn verify(&self, msg: &Vec<u8>, signature: &Vec<u8>) -> (r: bool)
        requires
            self.wf(),
        ensures
            r == dilithium_ok(self.pk_view(), msg@, signature@),
    {
        dilithium_verify(&self.pk_bytes, msg, signature)
    }

    /// The hex address of the wallet's public key.
    pub fn get_public_key(&self) -> (r: Vec<u8>)
        ensures
            r@ == self.address_view(),
    {
        bytes_clone(&self.address)
    }

    /// The hex encoding of the packed secret key.
    pub fn get_private_key(&self) -> Vec<u8> {
        let sk = dilithium_secret_bytes(&self.keypair);
        hex_encode(&sk)
    }
}

} // verus!
