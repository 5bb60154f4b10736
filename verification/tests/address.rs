use jabcoin::address::Address;
use jabcoin::crypto::{generate_random_rsa_pair, Sha256Hash};

#[test]
fn generate_address() {
    let rsa = generate_random_rsa_pair();
    Address::with_key(rsa.to_public_key());
}

#[test]
fn generate_hash() {
    let addr = Address::generate_random();

    println!("{:?}", addr.hash());
    println!("{}", addr.hash_str());
}

#[test]
fn verify_data() {
    // generate key pair
    let rsa = generate_random_rsa_pair();

    // generate address from public keypair
    let addr = Address::with_key(rsa.to_public_key());

    let mut data: Vec<u8> = vec![1; 32];

    let sig = rsa
        .sign(rsa::Pkcs1v15Sign::new_unprefixed(), &data[..])
        .unwrap();
    println!("{:?}", sig);
    addr.verify_data(&data[..], &sig[..]).unwrap();

    // change input
    data.push(1);

    // verification should fail now
    let failed_result = addr.verify_data(&data[..], &sig[..]);

    match failed_result {
        Ok(_) => panic!("verification succeeded with corrupted data"),
        Err(e) => println!("{}", e),
    }
}

#[test]
fn digest_is_32_bytes() {
    let addr = Address::new();
    assert_eq!(addr.hash().len(), 32);
    let hex = addr.hash_str();
    assert_eq!(hex.len(), 64);
    assert!(hex.chars().all(|c| c.is_ascii_hexdigit() && !c.is_ascii_uppercase()));
}

#[test]
fn zero_key_address() {
    let a = Address::new();
    let (n, e) = a.get_key();
    assert_eq!(n, &vec![0u8]);
    assert_eq!(e, &vec![0u8]);
    // the placeholder key accepts no signature
    assert!(a.verify_data(&[1, 2, 3], &[4, 5, 6]).is_err());
}
