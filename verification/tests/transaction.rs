use jabcoin::address::Address;
use jabcoin::crypto::{generate_random_rsa_pair, Sha256Hash};
use jabcoin::transaction::{Input, Output, Transaction};

#[test]
fn hash_input() {
    let addr = Address::generate_random();
    let input = Input::new(addr, 123);

    println!("{}", input.hash_str());
}

#[test]
fn hash_output() {
    let mut v = vec![];
    for i in 0..1 {
        let addr = Address::generate_random();
        v.push((addr, i));
    }
    let output = Output::with_addrs(v).unwrap();

    println!("{}", output.hash_str());
}

#[test]
fn hash_transaction() {
    let addr = Address::generate_random();
    let input = Input::new(addr, 123);

    let mut v = vec![];
    for i in 0..1 {
        let addr = Address::generate_random();
        v.push((addr, i));
    }
    let output = Output::with_addrs(v).unwrap();

    let trx = Transaction::new(input, output);
    println!("{}", trx.hash_str());
}

#[test]
fn verify_transaction() {
    // generate key pair
    let rsa = generate_random_rsa_pair();

    // generate input address
    let addr_input = Address::with_key(rsa.to_public_key());
    let inp = Input::new(addr_input, 10);

    // generate output addr
    let rsa2 = generate_random_rsa_pair();
    let addr_output = Address::with_key(rsa2.to_public_key());
    let out = Output::with_addrs(vec![(addr_output, 10)]).unwrap();

    let mut trx = Transaction::new(inp, out);

    let hash = trx.hash();

    trx.signature = Some(
        rsa.sign(rsa::Pkcs1v15Sign::new_unprefixed(), &hash)
            .unwrap(),
    );
    trx.input
        .addr
        .verify_data(&hash, trx.signature.as_ref().unwrap())
        .unwrap();

    // manipulate transaction
    trx.input.value = 5;
    let hash = trx.hash();

    // should now fail because signature shouldn't match
    // the hash
    trx.input
        .addr
        .verify_data(&hash, trx.signature.as_ref().unwrap())
        .unwrap_err();
}

#[test]
fn signature_exempt_hash_is_stable() {
    let a = Address::new();
    let b = Address::generate_random();
    let inp = Input::new(a, 10);
    let out = Output::with_addrs(vec![(b, 10)]).unwrap();

    let mut trx = Transaction::new(inp, out);
    let before_full = trx.hash();
    let before = trx.hash_ignore_sig();

    trx.set_signature(vec![1, 2, 3, 4]);
    let after = trx.hash_ignore_sig();
    let after_full = trx.hash();

    // attaching a signature leaves the signature-exempt hash alone ...
    assert_eq!(before, after);
    // ... but changes the content hash, which covers the signature
    assert_ne!(before_full, after_full);
}

#[test]
fn content_hash_covers_input_and_output() {
    let a = Address::new();
    let b = Address::generate_random();
    let out = Output::with_addrs(vec![(b, 10)]).unwrap();

    let t1 = Transaction::new(Input::new(a.clone(), 10), out.clone());
    let t2 = Transaction::new(Input::new(a.clone(), 11), out.clone());
    assert_ne!(t1.hash(), t2.hash());

    let out2 = Output::with_addrs(vec![(Address::new(), 10)]).unwrap();
    let t3 = Transaction::new(Input::new(a, 10), out2);
    assert_ne!(t1.hash(), t3.hash());
}

#[test]
fn output_size_limit() {
    let mut v: Vec<(Address, u64)> = Vec::new();
    for i in 0..100u64 {
        v.push((Address::new(), i));
    }
    assert!(Output::with_addrs(v.clone()).is_ok());
    v.push((Address::new(), 100));
    assert_eq!(Output::with_addrs(v).unwrap_err(), "too many addresses!");
}
