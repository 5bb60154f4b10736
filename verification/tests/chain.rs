use jabcoin::address::Address;
use jabcoin::block::Block;
use jabcoin::blockchain::{Blockchain, StructuralError, ValidationError};
use jabcoin::crypto::Sha256Hash;
use jabcoin::transaction::{Input, Output, Transaction};
use jabcoin::wallet::Wallet;

// Small test-only keys: this suite generates twenty key pairs, which at
// full size would make it far too slow.
fn generate_small_rsa_pair() -> rsa::RsaPrivateKey {
    let mut rng = rand::thread_rng();
    rsa::RsaPrivateKey::new(&mut rng, 512).unwrap()
}

fn generate_random_transaction() -> Transaction {
    let rsa = generate_small_rsa_pair();
    let initiator = Address::with_key(rsa.to_public_key());

    let recipient = Address::with_key(generate_small_rsa_pair().to_public_key());
    let inp = Input::new(initiator, 100);
    let outp = Output::with_addrs(vec![(recipient, 10)]).unwrap();

    let mut trx = Transaction::new(inp.clone(), outp.clone());

    let sig = rsa
        .sign(rsa::Pkcs1v15Sign::new_unprefixed(), &trx.hash_ignore_sig())
        .unwrap();

    trx.set_signature(sig);
    trx
}

fn mine(blk: &mut Block, prefix: &str) {
    loop {
        if blk.hash_str().starts_with(prefix) {
            break;
        }
        blk.update_nounce()
    }
}

#[test]
fn from_vec() {
    let miner = Address::new();
    let mut gen = Block::new(miner.clone());
    let mut trx: Vec<Transaction> = Vec::new();
    for _ in 0..10 {
        trx.push(generate_random_transaction());
    }

    for i in &trx {
        gen.add_transaction(i.clone());
    }
    mine(&mut gen, "000");

    let mut second = Block::new(miner.clone());
    for i in &trx {
        second.add_transaction(i.clone());
    }
    second.set_hash_prev(gen.hash());
    mine(&mut second, "000");

    let mut third = Block::new(miner.clone());
    for i in &trx {
        third.add_transaction(i.clone());
    }
    third.set_hash_prev(second.hash());
    mine(&mut third, "000");

    let _blkchain = Blockchain::try_from(vec![gen, second, third]).unwrap();
}

#[test]
fn verify_block() {
    let trx = generate_random_transaction();

    let miner = Address::new();
    let mut blk = Block::new(miner);
    blk.add_transaction(trx);
    mine(&mut blk, "000");

    let mut blkchain = Blockchain::new();
    blkchain.append_block(blk).unwrap();
}

#[test]
fn append_then_lookup() {
    let mut chain = Blockchain::new();
    let mut g = Block::new(Address::new());
    mine(&mut g, "000");
    let h1 = chain.append_block(g).unwrap();

    let pre_head_hash = chain.head().unwrap().hash();

    let mut b2 = Block::new(Address::new());
    b2.set_hash_prev(pre_head_hash.clone());
    mine(&mut b2, "000");
    let h2 = chain.append_block(b2).unwrap();

    // looking the returned hash up yields a block whose previous-hash is
    // the pre-append head's hash
    let stored = chain.get_block(&h2).unwrap();
    assert_eq!(stored.hash_prev(), &pre_head_hash);
    assert_eq!(chain.get_block(&h1).unwrap().hash_prev().len(), 0);
    assert_eq!(chain.len(), 2);
}

fn linear_chain() -> (Block, Block, Block) {
    let mut g = Block::new(Address::new());
    mine(&mut g, "000");
    let mut b2 = Block::new(Address::new());
    b2.set_hash_prev(g.hash());
    mine(&mut b2, "000");
    let mut b3 = Block::new(Address::new());
    b3.set_hash_prev(b2.hash());
    mine(&mut b3, "000");
    (g, b2, b3)
}

#[test]
fn assemble_is_order_independent() {
    let (g, b2, b3) = linear_chain();

    let c1 = Blockchain::try_from(vec![g.clone(), b2.clone(), b3.clone()]).unwrap();
    let c2 = Blockchain::try_from(vec![b3.clone(), g.clone(), b2.clone()]).unwrap();
    let c3 = Blockchain::try_from(vec![b2, b3, g]).unwrap();

    assert_eq!(c1.len(), 3);
    assert_eq!(c2.len(), 3);
    assert_eq!(c3.len(), 3);
    let h1 = c1.head().unwrap().hash();
    assert_eq!(h1, c2.head().unwrap().hash());
    assert_eq!(h1, c3.head().unwrap().hash());
}

#[test]
fn assemble_rejects_two_genesis_blocks() {
    let mut g1 = Block::new(Address::new());
    mine(&mut g1, "000");
    let mut g2 = Block::new(Address::new());
    g2.update_nounce();
    mine(&mut g2, "000");

    match Blockchain::try_from(vec![g1, g2]) {
        Err(StructuralError::MultipleGenesis) => {}
        _ => panic!("expected MultipleGenesis"),
    }
}

#[test]
fn assemble_rejects_missing_genesis() {
    let (g, b2, b3) = linear_chain();
    drop(g);
    match Blockchain::try_from(vec![b2, b3]) {
        Err(StructuralError::NoGenesis) => {}
        _ => panic!("expected NoGenesis"),
    }
}

fn signed_transfer(from: &Wallet, to: &Address, from_value: u64, to_value: u64) -> Transaction {
    let inp = Input::new(from.address(), from_value);
    let out = Output::with_addrs(vec![(to.clone(), to_value)]).unwrap();
    let mut trx = Transaction::new(inp, out);
    assert!(from.sign(&mut trx));
    trx
}

#[test]
fn mined_transfer_appends() {
    // genesis block with miner M0, one signed transaction moving 10 units
    let m0 = Address::new();
    let a = Wallet::generate_random();
    let b = Address::generate_random();

    let mut blk = Block::new(m0);
    blk.add_transaction(signed_transfer(&a, &b, 10, 10));
    mine(&mut blk, "000");
    let mined_hash = blk.hash();

    let mut chain = Blockchain::new();
    let h = chain.append_block(blk).unwrap();
    assert_eq!(h, mined_hash);
    assert_eq!(chain.len(), 1);
    assert_eq!(chain.head().unwrap().hash(), mined_hash);
}

#[test]
fn corrupted_transfer_is_rejected() {
    let m0 = Address::new();
    let a = Wallet::generate_random();
    let b = Address::generate_random();

    let mut blk = Block::new(m0);
    let mut trx = signed_transfer(&a, &b, 10, 10);
    // corrupt the output value after signing
    trx.output.addrs[0].value = 11;
    blk.add_transaction(trx);
    mine(&mut blk, "000");

    let mut chain = Blockchain::new();
    match chain.append_block(blk) {
        Err((ValidationError::InvalidSignature(_), _)) => {}
        _ => panic!("expected InvalidSignature"),
    }
    assert_eq!(chain.len(), 0);
}

#[test]
fn unsigned_transaction_is_rejected() {
    let mut blk = Block::new(Address::new());
    let out = Output::with_addrs(vec![(Address::generate_random(), 1)]).unwrap();
    blk.add_transaction(Transaction::new(Input::new(Address::generate_random(), 1), out));
    mine(&mut blk, "000");

    let mut chain = Blockchain::new();
    match chain.append_block(blk) {
        Err((ValidationError::MissingSignature(_), _)) => {}
        _ => panic!("expected MissingSignature"),
    }
}

#[test]
fn overdraft_is_rejected() {
    let a = Wallet::generate_random();
    let b = Address::generate_random();

    let mut blk = Block::new(Address::new());
    // outputs exceed the input value
    blk.add_transaction(signed_transfer(&a, &b, 5, 6));
    mine(&mut blk, "000");

    let mut chain = Blockchain::new();
    match chain.append_block(blk) {
        Err((ValidationError::Overdraft(_), _)) => {}
        _ => panic!("expected Overdraft"),
    }
}

#[test]
fn unmined_block_is_rejected() {
    let mut blk = Block::new(Address::new());
    // make sure the hash does not satisfy the proof-of-work rule
    while blk.hash_str().starts_with("000") {
        blk.update_nounce();
    }

    let mut chain = Blockchain::new();
    match chain.append_block(blk) {
        Err((ValidationError::InvalidProof, _)) => {}
        _ => panic!("expected InvalidProof"),
    }
}
