//! Wallets: the signing side of an identity.
//!
//! A wallet holds an RSA private key together with the big-endian bytes of
//! the matching public modulus and exponent, so that contracts can speak
//! of the address the wallet signs for.  Nothing is taken on trust about
//! what signing produces: a signature is attached only after it has been
//! checked, at run time, to verify under the wallet's recorded public key.

use vstd::prelude::*;
use crate::address::Address;
use crate::crypto::{copy_bytes, generate_random_rsa_pair, rsa_verify, rsa_verify_ok};
use crate::transaction::{tx_nosig_hash, Transaction};
use rsa::traits::PublicKeyParts;

verus! {

/// A signing key with its public half's byte rendering.
pub struct Wallet {
    pub key: rsa::RsaPrivateKey,
    pub pub_n: Vec<u8>,
    pub pub_e: Vec<u8>,
}

impl Wallet {
    /// Relies on `rsa::RsaPrivateKey::to_public_key`,
    /// `rsa::traits::PublicKeyParts` and `BigUint::to_bytes_be`: wraps a
    /// private key, recording its public modulus and exponent bytes.
    #[verifier::external_body]
    pub fn with_key(key: rsa::RsaPrivateKey) -> Wallet {
        let pk = key.to_public_key();
        let pub_n = pk.n().to_bytes_be();
        let pub_e = pk.e().to_bytes_be();
        Wallet { key, pub_n, pub_e }
    }

    /// A wallet over a freshly generated random key pair.
    pub fn generate_random() -> Wallet {
        Wallet::with_key(generate_random_rsa_pair())
    }

    /// The address holding this wallet's public key.
    pub fn address(&self) -> (r: Address)
        ensures
            r.key_n@ == self.pub_n@,
            r.key_e@ == self.pub_e@,
    {
        Address { key_n: copy_bytes(&self.pub_n), key_e: copy_bytes(&self.pub_e) }
    }

    /// Signs the transaction's signature-exempt hash and attaches the
    /// signature.  Returns whether one was attached; on `true` the
    /// signature has been checked to verify under this wallet's public
    /// key.  A signature that would not verify — or a signing failure —
    /// leaves the transaction unsigned.
    pub fn sign(&self, trx: &mut Transaction) -> (r: bool)
        ensures
            final(trx).input == old(trx).input,
            final(trx).output == old(trx).output,
            r ==> (final(trx).signature matches Some(s) && rsa_verify_ok(
                self.pub_n@,
                self.pub_e@,
                tx_nosig_hash(*old(trx)),
                s@,
            )),
            !r ==> final(trx).signature == old(trx).signature,
    {
        let digest = trx.hash_ignore_sig();
        match sign_digest(&self.key, &digest) {
            Some(sig) => {
                if rsa_verify(&self.pub_n, &self.pub_e, digest.as_slice(), sig.as_slice())
                    .is_ok() {
                    trx.set_signature(sig);
                    true
                } else {
                    false
                }
            },
            None => false,
        }
    }
}

/// Relies on `rsa::RsaPrivateKey::sign` with
/// `Pkcs1v15Sign::new_unprefixed()`.  Nothing is claimed of the produced
/// bytes; the caller checks them through `rsa_verify` before using them.
#[verifier::external_body]
fn sign_digest(key: &rsa::RsaPrivateKey, digest: &Vec<u8>) -> Option<Vec<u8>> {
    match key.sign(rsa::Pkcs1v15Sign::new_unprefixed(), &digest[..]) {
        Ok(sig) => Some(sig),
        Err(_) => None,
    }
}

} // verus!
