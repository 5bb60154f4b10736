use jabcoin::address::Address;
use jabcoin::block::Block;
use jabcoin::crypto::Sha256Hash;
use jabcoin::network::peer::{Ipv4Addr, Peer, PeerType};
use jabcoin::node::State;
use jabcoin::transaction::{Input, Output, Transaction};
use jabcoin::wallet::Wallet;

fn balance_of(st: &State, a: &Address) -> Option<i128> {
    for (addr, v) in &st.economy {
        if addr.key_n == a.key_n && addr.key_e == a.key_e {
            return Some(*v);
        }
    }
    None
}

fn mk_state() -> State {
    let me = Peer::new(0, PeerType::FullNode, Ipv4Addr::new(127, 0, 0, 1));
    State::new(me, Vec::new())
}

#[test]
fn replay_credits_and_debits() {
    let m0 = Address::new();
    let a = Wallet::generate_random();
    let b = Address::generate_random();

    let mut blk = Block::new(m0.clone());
    let out = Output::with_addrs(vec![(b.clone(), 7)]).unwrap();
    let mut trx = Transaction::new(Input::new(a.address(), 10), out);
    assert!(a.sign(&mut trx));
    blk.add_transaction(trx);
    loop {
        if blk.hash_str().starts_with("000") {
            break;
        }
        blk.update_nounce();
    }

    let mut st = mk_state();
    st.chain.append_block(blk).unwrap();

    assert!(st.build_cache());
    // the miner gets the 10-unit reward plus the 3 units of change; the
    // sender is debited its input; the recipient is credited its share
    assert_eq!(balance_of(&st, &m0), Some(13));
    assert_eq!(balance_of(&st, &a.address()), Some(-10));
    assert_eq!(balance_of(&st, &b), Some(7));
    assert_eq!(st.economy.len(), 3);
}

#[test]
fn replay_of_empty_chain_is_empty() {
    let mut st = mk_state();
    assert!(st.build_cache());
    assert_eq!(st.economy.len(), 0);
}
