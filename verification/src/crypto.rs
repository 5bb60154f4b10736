//! Hashing and signature capabilities.
//!
//! The content hash of every ledger entity is a SHA-256 digest; signatures
//! are RSA PKCS#1 v1.5 signatures over such digests.  Both primitives are
//! supplied by outside crates and are reached only through the trusted
//! wrappers below; everything the rest of the crate proves about them goes
//! through the two uninterpreted names `sha256_of` and `rsa_verify_ok`.

use vstd::prelude::*;
use sha2::Digest;

verus! {

/// The SHA-256 digest of a byte sequence.  The digest is a function of the
/// input bytes alone; no contract of this crate says what it is on any
/// given input.
pub uninterp spec fn sha256_of(data: Seq<u8>) -> Seq<u8>;

/// Relies on `sha2::Sha256` (`Digest::update` / `Digest::finalize`): the
/// digest depends on the input bytes alone and is exactly 32 bytes long.
#[verifier::external_body]
pub fn sha256(data: &Vec<u8>) -> (r: Vec<u8>)
    ensures
        r@ == sha256_of(data@),
        r@.len() == 32,
{
    let mut hasher = sha2::Sha256::new();
    hasher.update(&data[..]);
    hasher.finalize().to_vec()
}

/// Whether RSA PKCS#1 v1.5 (unprefixed) verification under the public key
/// with big-endian modulus bytes `n` and exponent bytes `e` accepts `sig`
/// as a signature over `data`.  Verification is deterministic in those
/// four values alone.
pub uninterp spec fn rsa_verify_ok(n: Seq<u8>, e: Seq<u8>, data: Seq<u8>, sig: Seq<u8>) -> bool;

/// Relies on `rsa::RsaPublicKey::verify` with
/// `Pkcs1v15Sign::new_unprefixed()`: the outcome is a deterministic
/// function of the key material, the data and the signature.  The modulus
/// and exponent arrive as big-endian bytes and are rebuilt with
/// `BigUint::from_bytes_be`; a key that `RsaPublicKey::new` rejects
/// accepts no signature.
#[verifier::external_body]
pub fn rsa_verify(n: &Vec<u8>, e: &Vec<u8>, data: &[u8], sig: &[u8]) -> (r: Result<(), String>)
    ensures
        r is Ok <==> rsa_verify_ok(n@, e@, data@, sig@),
{
    let nv = rsa::BigUint::from_bytes_be(&n[..]);
    let ev = rsa::BigUint::from_bytes_be(&e[..]);
    let key = match rsa::RsaPublicKey::new(nv, ev) {
        Ok(k) => k,
        Err(e) => {
            return Err(format!("{}", e));
        },
    };
    match key.verify(rsa::Pkcs1v15Sign::new_unprefixed(), data, sig) {
        Ok(()) => Ok(()),
        Err(e) => Err(format!("{}", e)),
    }
}

/// Appends the bytes of `src` to `dst`.
pub fn append_bytes(dst: &mut Vec<u8>, src: &Vec<u8>)
    ensures
        final(dst)@ == old(dst)@ + src@,
{
    let mut i: usize = 0;
    while i < src.len()
        invariant
            0 <= i <= src@.len(),
            dst@ == old(dst)@ + src@.take(i as int),
        decreases src@.len() - i,
    {
        dst.push(src[i]);
        proof {
            assert(old(dst)@ + src@.take(i + 1) =~= (old(dst)@ + src@.take(i as int)).push(
                src@[i as int],
            ));
        }
        i = i + 1;
    }
    proof {
        assert(src@.take(src@.len() as int) =~= src@);
    }
}

#[verifier::external_type_specification]
#[verifier::external_body]
pub struct ExRsaPrivateKey(rsa::RsaPrivateKey);

#[verifier::external_type_specification]
#[verifier::external_body]
pub struct ExRsaPublicKey(rsa::RsaPublicKey);

/// Relies on `rsa::RsaPrivateKey::to_public_key`.
pub assume_specification[ rsa::RsaPrivateKey::to_public_key ](
    key: &rsa::RsaPrivateKey,
) -> rsa::RsaPublicKey;

/// Relies on `rsa::RsaPrivateKey::new`: generates a fresh random 1024-bit
/// key pair.  Generation is retried until it succeeds, so the call always
/// returns a key.
#[verifier::external_body]
pub fn generate_random_rsa_pair() -> rsa::RsaPrivateKey {
    let mut rng = rand::thread_rng();
    loop {
        if let Ok(key) = rsa::RsaPrivateKey::new(&mut rng, 1024) {
            return key;
        }
    }
}

/// A fresh vector holding the same bytes as `src`.
pub fn copy_bytes(src: &Vec<u8>) -> (r: Vec<u8>)
    ensures
        r@ == src@,
{
    let mut r: Vec<u8> = Vec::new();
    append_bytes(&mut r, src);
    proof {
        assert(r@ =~= src@);
    }
    r
}

/// Compares two byte vectors for equality.
pub fn bytes_eq(a: &Vec<u8>, b: &Vec<u8>) -> (r: bool)
    ensures
        r == (a@ == b@),
{
    if a.len() != b.len() {
        return false;
    }
    let mut i: usize = 0;
    while i < a.len()
        invariant
            a@.len() == b@.len(),
            0 <= i <= a@.len(),
            forall|j: int| 0 <= j < i ==> a@[j] == b@[j],
        decreases a@.len() - i,
    {
        if a[i] != b[i] {
            return false;
        }
        i = i + 1;
    }
    proof {
        assert(a@ =~= b@);
    }
    true
}

/// The big-endian bytes of a 64-bit integer.
pub open spec fn u64_be(x: u64) -> Seq<u8> {
    seq![
        (x >> 56) as u8,
        (x >> 48) as u8,
        (x >> 40) as u8,
        (x >> 32) as u8,
        (x >> 24) as u8,
        (x >> 16) as u8,
        (x >> 8) as u8,
        x as u8,
    ]
}

/// Writes a 64-bit integer as its eight big-endian bytes.
pub fn u64_to_be_bytes(x: u64) -> (r: Vec<u8>)
    ensures
        r@ == u64_be(x),
{
    let mut r: Vec<u8> = Vec::new();
    r.push((x >> 56) as u8);
    r.push((x >> 48) as u8);
    r.push((x >> 40) as u8);
    r.push((x >> 32) as u8);
    r.push((x >> 24) as u8);
    r.push((x >> 16) as u8);
    r.push((x >> 8) as u8);
    r.push(x as u8);
    proof {
        assert(r@ =~= u64_be(x));
    }
    r
}

/// Everything with a SHA-256 content hash.
pub trait Sha256Hash {
    /// The digest this value hashes to.
    spec fn hash_spec(&self) -> Seq<u8>;

    /// The content hash as raw digest bytes, always 32 of them.
    fn hash(&self) -> (r: Vec<u8>)
        ensures
            r@ == self.hash_spec(),
            r@.len() == 32,
    ;

    /// The content hash rendered as lower-case hex digits.
    fn hash_str(&self) -> (r: String)
        ensures
            r@ == hex_of(self.hash_spec()),
    ;
}

/// The lower-case hex digit for a nibble.
pub open spec fn hex_digit(n: u8) -> char
    recommends
        n < 16,
{
    if n == 0 {
        '0'
    } else if n == 1 {
        '1'
    } else if n == 2 {
        '2'
    } else if n == 3 {
        '3'
    } else if n == 4 {
        '4'
    } else if n == 5 {
        '5'
    } else if n == 6 {
        '6'
    } else if n == 7 {
        '7'
    } else if n == 8 {
        '8'
    } else if n == 9 {
        '9'
    } else if n == 10 {
        'a'
    } else if n == 11 {
        'b'
    } else if n == 12 {
        'c'
    } else if n == 13 {
        'd'
    } else if n == 14 {
        'e'
    } else {
        'f'
    }
}

/// The hex rendering of a byte sequence: two digits per byte, high nibble
/// first.
pub open spec fn hex_of(s: Seq<u8>) -> Seq<char>
    decreases s.len(),
{
    if s.len() == 0 {
        Seq::empty()
    } else {
        hex_of(s.drop_last()) + seq![hex_digit(s.last() >> 4), hex_digit(s.last() & 0xf)]
    }
}

pub proof fn lemma_hex_len(s: Seq<u8>)
    ensures
        hex_of(s).len() == 2 * s.len(),
    decreases s.len(),
{
    if s.len() > 0 {
        lemma_hex_len(s.drop_last());
    }
}

pub proof fn lemma_hex_index(s: Seq<u8>, i: int)
    requires
        0 <= i < s.len(),
    ensures
        hex_of(s).len() == 2 * s.len(),
        hex_of(s)[2 * i] == hex_digit(s[i] >> 4),
        hex_of(s)[2 * i + 1] == hex_digit(s[i] & 0xf),
    decreases s.len(),
{
    lemma_hex_len(s);
    if i < s.len() - 1 {
        lemma_hex_index(s.drop_last(), i);
    }
}

/// A one-character string slice for a nibble's hex digit.
fn hex_digit_str(n: u8) -> (r: &'static str)
    requires
        n < 16,
    ensures
        r@ == seq![hex_digit(n)],
{
    proof {
        reveal_strlit("0");
        reveal_strlit("1");
        reveal_strlit("2");
        reveal_strlit("3");
        reveal_strlit("4");
        reveal_strlit("5");
        reveal_strlit("6");
        reveal_strlit("7");
        reveal_strlit("8");
        reveal_strlit("9");
        reveal_strlit("a");
        reveal_strlit("b");
        reveal_strlit("c");
        reveal_strlit("d");
        reveal_strlit("e");
        reveal_strlit("f");
    }
    match n {
        0 => "0",
        1 => "1",
        2 => "2",
        3 => "3",
        4 => "4",
        5 => "5",
        6 => "6",
        7 => "7",
        8 => "8",
        9 => "9",
        10 => "a",
        11 => "b",
        12 => "c",
        13 => "d",
        14 => "e",
        _ => "f",
    }
}

/// Renders digest bytes as lower-case hex.
pub fn bytes_to_hex(h: &Vec<u8>) -> (r: String)
    ensures
        r@ == hex_of(h@),
{
    let mut s = String::new();
    let mut i: usize = 0;
    while i < h.len()
        invariant
            0 <= i <= h@.len(),
            s@ == hex_of(h@.take(i as int)),
        decreases h@.len() - i,
    {
        let b = h[i];
        proof {
            assert(b >> 4 < 16) by (bit_vector);
            assert(b & 0xf < 16) by (bit_vector);
        }
        s.append(hex_digit_str(b >> 4));
        s.append(hex_digit_str(b & 0xf));
        proof {
            assert(h@.take(i + 1).drop_last() =~= h@.take(i as int));
            assert(h@.take(i + 1).last() == h@[i as int]);
        }
        i = i + 1;
    }
    proof {
        assert(h@.take(h@.len() as int) =~= h@);
    }
    s
}

} // verus!
