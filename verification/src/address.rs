//! Account identities.
//!
//! An `Address` wraps the public half of an RSA key pair, kept as the
//! big-endian bytes of its modulus and public exponent.  Its SHA-256 hash
//! is the canonical account id; equality of addresses is equality of the
//! key material.

use vstd::prelude::*;
use crate::crypto::{
    append_bytes, bytes_to_hex, copy_bytes, generate_random_rsa_pair, rsa_verify, rsa_verify_ok,
    sha256, sha256_of, hex_of, Sha256Hash,
};
use rsa::traits::PublicKeyParts;

verus! {

/// An account identity: the public verification key, as the big-endian
/// bytes of its RSA modulus and public exponent.
#[derive(Clone, Debug)]
pub struct Address {
    pub key_n: Vec<u8>,
    pub key_e: Vec<u8>,
}

/// Two addresses carry the same key material.
pub open spec fn addr_eqv(a: Address, b: Address) -> bool {
    a.key_n@ == b.key_n@ && a.key_e@ == b.key_e@
}

/// The content hash of an address: SHA-256 over modulus bytes followed by
/// exponent bytes.
pub open spec fn addr_hash(a: Address) -> Seq<u8> {
    sha256_of(a.key_n@ + a.key_e@)
}

impl Address {
    /// The placeholder address whose modulus and exponent are both the
    /// number zero (one zero byte each).
    pub fn new() -> (r: Address)
        ensures
            r.key_n@ == seq![0u8],
            r.key_e@ == seq![0u8],
    {
        let mut n: Vec<u8> = Vec::new();
        n.push(0u8);
        let mut e: Vec<u8> = Vec::new();
        e.push(0u8);
        Address { key_n: n, key_e: e }
    }

    /// Wraps an RSA public key, taking its modulus and exponent bytes.
    pub fn with_key(key: rsa::RsaPublicKey) -> Address {
        let (n, e) = key_bytes(&key);
        Address { key_n: n, key_e: e }
    }

    /// Randomly generates an address from a fresh key pair.
    pub fn generate_random() -> Address {
        let pair = generate_random_rsa_pair();
        Address::with_key(pair.to_public_key())
    }

    /// A fresh address with the same key material.
    pub fn duplicate(&self) -> (r: Address)
        ensures
            r.key_n@ == self.key_n@,
            r.key_e@ == self.key_e@,
    {
        Address { key_n: copy_bytes(&self.key_n), key_e: copy_bytes(&self.key_e) }
    }

    /// The key material: big-endian modulus bytes and exponent bytes.
    pub fn get_key(&self) -> (r: (&Vec<u8>, &Vec<u8>))
        ensures
            r.0@ == self.key_n@,
            r.1@ == self.key_e@,
    {
        (&self.key_n, &self.key_e)
    }

    /// Checks `sig` as an RSA PKCS#1 v1.5 signature over `data` under this
    /// address's key.
    pub fn verify_data(&self, data: &[u8], sig: &[u8]) -> (r: Result<(), String>)
        ensures
            r is Ok <==> rsa_verify_ok(self.key_n@, self.key_e@, data@, sig@),
    {
        rsa_verify(&self.key_n, &self.key_e, data, sig)
    }
}

/// Relies on `rsa::traits::PublicKeyParts` (`n`, `e`) and
/// `BigUint::to_bytes_be`: reads the key's modulus and public exponent as
/// big-endian bytes.
#[verifier::external_body]
fn key_bytes(key: &rsa::RsaPublicKey) -> (Vec<u8>, Vec<u8>) {
    (key.n().to_bytes_be(), key.e().to_bytes_be())
}

impl Sha256Hash for Address {
    open spec fn hash_spec(&self) -> Seq<u8> {
        addr_hash(*self)
    }

    fn hash(&self) -> (r: Vec<u8>) {
        let mut buf: Vec<u8> = Vec::new();
        append_bytes(&mut buf, &self.key_n);
        append_bytes(&mut buf, &self.key_e);
        sha256(&buf)
    }

    fn hash_str(&self) -> (r: String) {
        bytes_to_hex(&self.hash())
    }
}

} // verus!
