use jabcoin::network::peer::{Ipv4Addr, Peer, PeerType};
use jabcoin::network::protocol::{Header, Message};
use jabcoin::node::communication::{Communication, ComMessage, Job, StepResult, Status};
use jabcoin::node::{Config, State};
use jabcoin::transaction::{Input, Output, Transaction};
use jabcoin::address::Address;
use jabcoin::KillToken;

#[test]
fn protocol_serialize() {
    let msg = Message::with_data(Header::BroadcastPeers, "[]");
    assert!(matches!(msg.header, Header::BroadcastPeers));
    assert_eq!(msg.body, "[]");
}

#[test]
fn protocol_deserialize() {
    let msg = Message::new();
    assert!(matches!(msg.header, Header::OK));
    assert_eq!(msg.body, "");
}

fn mk_state() -> State {
    let me = Peer::new(0, PeerType::FullNode, Ipv4Addr::new(127, 0, 0, 1));
    State::new(me, Vec::new())
}

#[test]
fn register_is_idempotent() {
    let mut st = mk_state();
    let p = Peer::new(7, PeerType::LightNode, Ipv4Addr::new(1, 2, 3, 4));
    let src = Ipv4Addr::new(9, 9, 9, 9);

    let reply = st.handle_register(p.clone(), src);
    // the reply is the full current list, including the new peer, with
    // the observed source address replacing the self-reported one
    let list = reply.expect("first registration replies with the peer list");
    assert_eq!(list.len(), 1);
    assert_eq!(*list[0].address(), src);
    assert_eq!(st.peers.len(), 1);
    assert_eq!(*st.peers[0].address(), src);

    // registering the same descriptor again changes nothing
    let reply2 = st.handle_register(p, src);
    assert!(reply2.is_none());
    assert_eq!(st.peers.len(), 1);
}

#[test]
fn broadcast_introduces_no_duplicates() {
    let mut st = mk_state();
    let a = Peer::new(1, PeerType::FullNode, Ipv4Addr::new(1, 1, 1, 1));
    let b = Peer::new(2, PeerType::FullNode, Ipv4Addr::new(2, 2, 2, 2));

    st.confirm_peers(vec![a.clone(), a.clone(), b.clone()]);
    assert_eq!(st.peers.len(), 2);

    // a second broadcast with known peers adds nothing
    let unknown = st.filter_unknown(vec![a, b.clone()]);
    assert!(unknown.is_empty());
    st.confirm_peers(vec![b]);
    assert_eq!(st.peers.len(), 2);
}

#[test]
fn filter_keeps_new_peers() {
    let mut st = mk_state();
    let a = Peer::new(1, PeerType::FullNode, Ipv4Addr::new(1, 1, 1, 1));
    let b = Peer::new(2, PeerType::FullNode, Ipv4Addr::new(2, 2, 2, 2));
    st.confirm_peers(vec![a.clone()]);

    let unknown = st.filter_unknown(vec![a, b.clone()]);
    assert_eq!(unknown.len(), 1);
    assert_eq!(unknown[0].id(), b.id());
}

#[test]
fn deregister_removes_by_address() {
    let mut st = mk_state();
    let a = Peer::new(1, PeerType::FullNode, Ipv4Addr::new(1, 1, 1, 1));
    st.confirm_peers(vec![a]);
    assert_eq!(st.peers.len(), 1);

    // a miss is not an error
    assert!(!st.handle_deregister(Ipv4Addr::new(5, 5, 5, 5)));
    assert_eq!(st.peers.len(), 1);

    assert!(st.handle_deregister(Ipv4Addr::new(1, 1, 1, 1)));
    assert_eq!(st.peers.len(), 0);
}

#[test]
fn transaction_queue_deduplicates_by_hash() {
    let mut st = mk_state();
    let out = Output::with_addrs(vec![(Address::new(), 1)]).unwrap();
    let trx = Transaction::new(Input::new(Address::new(), 2), out);

    assert!(st.handle_new_transaction(trx.clone()));
    assert!(!st.handle_new_transaction(trx));
    assert_eq!(st.trx_queue.len(), 1);
}

#[test]
fn shutdown_empties_queue_and_stops_work() {
    let mut com = Communication::new();
    let addr = Ipv4Addr::new(1, 2, 3, 4);
    assert!(com.queue_job(Job::new(addr, Message::new())));

    let peers = vec![Peer::new(1, PeerType::FullNode, addr)];
    com.request_stop(&peers);

    // the terminate marker sits at the back and is popped first
    assert!(matches!(com.step(0), StepResult::Terminated));
    // the queued deregister job still drains
    match com.step(0) {
        StepResult::Execute(job) => {
            assert!(matches!(job.msg.header, Header::Deregister));
        }
        _ => panic!("expected the deregister job"),
    }
    assert!(matches!(com.step(0), StepResult::Idle));

    com.finish_shutdown();
    // after shutdown: no further jobs are accepted or executed
    assert!(!com.queue_job(Job::new(addr, Message::new())));
    assert!(matches!(com.step(7), StepResult::Idle));
}

#[test]
fn scheduled_job_waits_until_due() {
    let mut com = Communication::new();
    let addr = Ipv4Addr::new(1, 2, 3, 4);
    let job = Job::_with_schedule((10, 5), addr, Message::new());
    assert!(com.queue_job(job));

    // tick 12: 2 ticks elapsed, minimum delay 5 -> requeued
    assert!(matches!(com.step(12), StepResult::Requeued));
    // tick 16: 6 ticks elapsed -> executed
    assert!(matches!(com.step(16), StepResult::Execute(_)));
    assert!(matches!(com.step(16), StepResult::Idle));
}

#[test]
fn request_peers_queues_one_job() {
    let mut com = Communication::new();
    let addr = Ipv4Addr::new(4, 3, 2, 1);
    assert!(com.request_peers(addr, "me"));
    match com.step(0) {
        StepResult::Execute(job) => {
            assert!(matches!(job.msg.header, Header::RequestPeers));
            assert_eq!(job.msg.body, "me");
            assert_eq!(job.peer_addr, addr);
        }
        _ => panic!("expected the request job"),
    }
}

#[test]
fn config_with_default() {
    let cfg = Config::with_default();
    assert_eq!(cfg.blkpath, "etc/blocks/");
    assert!(cfg.build_cache);
    assert!(cfg.mine);
    assert!(cfg.listen_communication);
    assert_eq!(cfg.count_comm_workers, 4);
    assert_eq!(cfg.count_chain_workers, 1);
    assert_eq!(cfg.peers.len(), 1);
    assert_eq!(cfg.peer.id(), 0);
}

#[test]
fn kill_token_activates() {
    let kt = KillToken::new();
    kt.activate();
}

#[test]
fn com_message_holds_work() {
    let m = ComMessage::Work(Job::new(Ipv4Addr::new(0, 0, 0, 0), Message::new()));
    assert!(matches!(m, ComMessage::Work(_)));
    assert!(matches!(Status::Running, Status::Running));
}
