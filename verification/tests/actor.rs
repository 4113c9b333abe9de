use rand::rngs::StdRng;
use rand::SeedableRng;
use raft::actor::Actor;
use raft::message::{Candidacy, Heartbeat, Message, Vote};
use raft::node::{Candidate, Leader, Node, Role};

fn node(time: u64, last_activity: u64, term: u64) -> Node {
    Node {
        id: "node.0".to_string(),
        time,
        last_activity,
        term,
        peers: vec!["node.0".to_string(), "node.1".to_string(), "node.2".to_string()],
    }
}

fn vote_for_me(term: u64) -> Message {
    Message::Vote(Vote { voter_id: "node.1".to_string(), term, candidate: "node.0".to_string() })
}

#[test]
fn new_actor_has_empty_queues() {
    let a = Actor::new(node(3, 1, 2), Role::Idler);
    assert!(a.inbox.is_empty() && a.outbox.is_empty());
    assert_eq!(a.node.time, 3);
    assert!(matches!(a.role, Role::Idler));
}

#[test]
fn poll_ticks_reads_inbox_and_appends_to_outbox() {
    let mut rng = StdRng::seed_from_u64(1);
    let mut a = Actor::new(node(9, 0, 2), Role::Idler);
    a.outbox.push(Message::Candidacy(Candidacy { candidate_id: "node.0".to_string(), term: 1 }));
    a.inbox.push(Message::Heartbeat(Heartbeat { leader_id: "node.1".to_string(), term: 1, nodes: vec![] }));
    a.inbox.push(Message::Candidacy(Candidacy { candidate_id: "node.2".to_string(), term: 3 }));
    a.inbox.push(Message::Heartbeat(Heartbeat { leader_id: "node.2".to_string(), term: 3, nodes: vec![] }));
    assert!(a.within_limits());
    assert!(a.poll(&mut rng).is_ok());
    assert_eq!(a.node.time, 10);
    assert_eq!(a.node.term, 3);
    assert_eq!(a.node.last_activity, 10);
    assert!(a.inbox.is_empty());
    assert!(matches!(&a.role, Role::Follower(f) if f.leader_id == "node.2"));
    assert_eq!(a.outbox.len(), 2);
    assert!(matches!(&a.outbox[0], Message::Candidacy(c) if c.term == 1));
    assert!(matches!(&a.outbox[1], Message::Vote(v) if v.term == 3 && v.candidate == "node.2" && v.voter_id == "node.0"));
}

#[test]
fn candidate_wins_within_one_poll() {
    let mut rng = StdRng::seed_from_u64(2);
    let mut a = Actor::new(node(20, 20, 4), Role::Candidate(Candidate { votes: 1 }));
    a.inbox.push(vote_for_me(3));
    a.inbox.push(vote_for_me(4));
    a.poll(&mut rng).unwrap();
    assert!(matches!(a.role, Role::Leader(_)));
    match &a.outbox[..] {
        [Message::Heartbeat(h)] => {
            assert_eq!(h.term, 4);
            assert_eq!(h.nodes.len(), 3);
        }
        _ => panic!("expected one heartbeat"),
    }
    assert_eq!(a.node.last_activity, 21);
}

#[test]
fn poll_keeps_identity_and_never_lowers_the_term() {
    let mut rng = StdRng::seed_from_u64(3);
    let mut a = Actor::new(node(0, 0, 0), Role::Idler);
    let mut term = 0;
    for k in 0..1000u64 {
        if k % 97 == 0 {
            a.inbox.push(Message::Heartbeat(Heartbeat { leader_id: "node.1".to_string(), term: k / 97, nodes: vec![] }));
        }
        a.poll(&mut rng).unwrap();
        assert_eq!(a.node.time, k + 1);
        assert_eq!(a.node.id, "node.0");
        assert!(a.node.term >= term);
        assert!(a.node.last_activity <= a.node.time);
        term = a.node.term;
        for m in a.outbox.drain(..) {
            match m {
                Message::Candidacy(c) => assert!(c.candidate_id == "node.0" && c.term == term),
                Message::Heartbeat(h) => assert!(h.leader_id == "node.0" && h.term == term),
                Message::Vote(v) => assert!(v.voter_id == "node.0" && v.term <= term),
            }
        }
    }
}

#[test]
fn leader_poll_without_rng_use() {
    let mut rng = StdRng::seed_from_u64(4);
    let mut a = Actor::new(node(15, 0, 2), Role::Leader(Leader {}));
    a.poll(&mut rng).unwrap();
    assert_eq!(a.outbox.len(), 1);
    a.poll(&mut rng).unwrap();
    assert_eq!(a.outbox.len(), 1);
}

#[test]
fn limits_refuse_overflowing_numbers() {
    let a = Actor::new(node(u64::MAX, 0, 0), Role::Idler);
    assert!(!a.within_limits());
    let a = Actor::new(node(0, 0, u64::MAX), Role::Idler);
    assert!(!a.within_limits());
    let mut a = Actor::new(node(0, 0, 0), Role::Idler);
    a.inbox.push(vote_for_me(u64::MAX));
    assert!(!a.within_limits());
    let mut a = Actor::new(node(0, 0, 0), Role::Candidate(Candidate { votes: u64::MAX - 1 }));
    a.inbox.push(vote_for_me(0));
    assert!(!a.within_limits());
    let a = Actor::new(node(0, 0, 0), Role::Candidate(Candidate { votes: u64::MAX - 1 }));
    assert!(a.within_limits());
}
