use jabcoin::address::Address;
use jabcoin::transaction::{Input, Output, Transaction};
use jabcoin::wallet::Wallet;

#[test]
fn sign_then_verify() {
    let w = Wallet::generate_random();
    let to = Address::generate_random();

    let out = Output::with_addrs(vec![(to, 10)]).unwrap();
    let mut trx = Transaction::new(Input::new(w.address(), 10), out);
    assert!(w.sign(&mut trx));

    let digest = trx.hash_ignore_sig();
    let sig = trx.signature().unwrap().clone();
    w.address().verify_data(&digest, &sig).unwrap();
}

#[test]
fn bit_flip_breaks_verification() {
    let w = Wallet::generate_random();
    let to = Address::generate_random();

    let out = Output::with_addrs(vec![(to, 10)]).unwrap();
    let mut trx = Transaction::new(Input::new(w.address(), 10), out);
    assert!(w.sign(&mut trx));

    let mut digest = trx.hash_ignore_sig();
    let sig = trx.signature().unwrap().clone();

    // flip a single bit of the signed data
    digest[0] ^= 1;
    assert!(w.address().verify_data(&digest, &sig).is_err());
}
