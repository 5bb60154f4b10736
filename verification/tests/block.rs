use jabcoin::address::Address;
use jabcoin::block::Block;
use jabcoin::crypto::Sha256Hash;

#[test]
fn generate_block() {
    let miner = Address::new();
    let _block = Block::new(miner);
}

#[test]
fn hash_block() {
    let miner = Address::new();
    let block = Block::new(miner);
    println!("{}", block.hash_str());
}

#[test]
fn find_nounce() {
    let miner = Address::new();
    let mut block = Block::new(miner);

    let mut hashes: Vec<String> = vec![];
    for _ in 0..100 {
        hashes.push(block.hash_str());
        block.nounce.incr();
    }

    let mut good: Vec<String> = vec![];
    for h in hashes {
        if h.starts_with("0") {
            good.push(h);
        }
    }
    assert!(good.len() > 0);
}

#[test]
fn with_previous_links() {
    let g = Block::new(Address::new());
    let b = Block::with_previous(Address::new(), &g);
    assert_eq!(b.id(), g.id() + 1);
    assert_eq!(b.hash_prev(), &g.hash());
}

#[test]
fn nounce_changes_hash() {
    let mut b = Block::new(Address::new());
    let h1 = b.hash();
    b.update_nounce();
    let h2 = b.hash();
    assert_ne!(h1, h2);
    assert_eq!(h1.len(), 32);
    assert_eq!(h2.len(), 32);
}
