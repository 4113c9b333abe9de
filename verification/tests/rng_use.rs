use rand::rngs::StdRng;
use rand::{RngCore, SeedableRng};
use raft::actor::Actor;
use raft::cluster::{cluster_id_list, new_cluster, reset_actor, reset_random_actor};
use raft::message::{Message, Vote};
use raft::node::{Candidate, Leader, Node, Role};
use raft::roles::{candidate, leader};

fn node(time: u64, last_activity: u64, term: u64) -> Node {
    Node {
        id: "a".to_string(),
        time,
        last_activity,
        term,
        peers: vec!["a".to_string(), "b".to_string()],
    }
}

fn untouched(before: &StdRng, after: &mut StdRng) -> bool {
    let mut b = before.clone();
    b.next_u64() == after.next_u64()
}

#[test]
fn leader_poll_leaves_the_rng() {
    let mut rng = StdRng::seed_from_u64(3);
    let before = rng.clone();
    let mut n = node(14, 0, 1);
    let (_, out) = leader::poll(&mut n, Leader {}, &mut rng);
    assert!(out.is_empty());
    assert!(untouched(&before, &mut rng));
}

#[test]
fn candidate_with_majority_leaves_the_rng() {
    let mut rng = StdRng::seed_from_u64(3);
    let before = rng.clone();
    let mut n = node(14, 0, 1);
    let (role, _) = candidate::poll(&mut n, Candidate { votes: 2 }, &mut rng);
    assert!(matches!(role, Role::Leader(_)));
    assert!(untouched(&before, &mut rng));
}

#[test]
fn actor_leader_poll_matches_and_leaves_the_rng() {
    let mut rng = StdRng::seed_from_u64(9);
    let before = rng.clone();
    let mut a = Actor::new(node(14, 0, 1), Role::Leader(Leader {}));
    assert!(a.poll(&mut rng).is_ok());
    assert_eq!(a.role, Role::Leader(Leader {}));
    assert_eq!(a.node, Node { time: 15, last_activity: 15, ..node(0, 0, 1) });
    match &a.outbox[..] {
        [Message::Heartbeat(h)] => {
            assert_eq!(h.leader_id, "a");
            assert_eq!(h.term, 1);
            assert_eq!(h.nodes, vec!["a".to_string(), "b".to_string()]);
        }
        _ => panic!("expected one heartbeat"),
    }
    assert!(untouched(&before, &mut rng));
}

#[test]
fn idler_poll_draws() {
    let mut rng = StdRng::seed_from_u64(9);
    let before = rng.clone();
    let mut a = Actor::new(node(0, 0, 1), Role::Idler);
    a.poll(&mut rng).unwrap();
    assert!(!untouched(&before, &mut rng));
}

#[test]
fn last_activity_stays_or_becomes_the_clock() {
    let mut rng = StdRng::seed_from_u64(4);
    let mut a = Actor::new(node(0, 0, 0), Role::Candidate(Candidate { votes: 1 }));
    for k in 0..500u64 {
        let before = a.node.last_activity;
        if k % 50 == 0 {
            a.inbox.push(Message::Vote(Vote { voter_id: "b".to_string(), term: a.node.term, candidate: "a".to_string() }));
        }
        a.poll(&mut rng).unwrap();
        assert!(a.node.last_activity == before || a.node.last_activity == a.node.time);
    }
}

#[test]
fn peers_must_be_distinct() {
    assert!(node(0, 0, 0).peers_are_distinct());
    let mut n = node(0, 0, 0);
    n.peers.push("a".to_string());
    assert!(!n.peers_are_distinct());
    let actors = new_cluster(4);
    assert!(actors.iter().all(|a| a.node.peers_are_distinct()));
}

#[test]
fn reset_replaces_one_actor() {
    let mut actors = new_cluster(3);
    actors[1].node.term = 7;
    actors[2].node.term = 9;
    let replaced = reset_actor(&mut actors, 1);
    assert_eq!(replaced.node.term, 7);
    assert_eq!(actors[1].node.term, 0);
    assert_eq!(actors[1].node.id, "node.1");
    assert_eq!(actors[1].node.peers, cluster_id_list(3));
    assert_eq!(actors[2].node.term, 9);
}

#[test]
fn random_reset_picks_every_place() {
    let mut rng = StdRng::seed_from_u64(2);
    let mut actors = new_cluster(3);
    let mut seen = [false; 3];
    for _ in 0..100 {
        let (l, _) = reset_random_actor(&mut actors, &mut rng);
        assert!(l < 3);
        seen[l] = true;
    }
    assert!(seen.iter().all(|s| *s));
}
