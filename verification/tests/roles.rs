use rand::rngs::StdRng;
use rand::SeedableRng;
use raft::message::{Candidacy, Heartbeat, Message, Vote};
use raft::node::{Candidate, Follower, Leader, Node, Role, Voter};
use raft::roles;
use raft::roles::actions::{
    draw_election_timeout, follower_of, go_into_idle, heartbeat, poll_election_after, poll_election_timeout,
    voter_for,
};
use raft::roles::{candidate, follower, idler, leader, voter};

fn rng() -> StdRng {
    StdRng::seed_from_u64(7)
}

fn node(time: u64, last_activity: u64, term: u64) -> Node {
    Node {
        id: "node.0".to_string(),
        time,
        last_activity,
        term,
        peers: vec!["node.0".to_string(), "node.1".to_string(), "node.2".to_string()],
    }
}

fn heartbeat_msg(leader: &str, term: u64) -> Message {
    Message::Heartbeat(Heartbeat { leader_id: leader.to_string(), term, nodes: vec![] })
}

fn candidacy_msg(candidate: &str, term: u64) -> Message {
    Message::Candidacy(Candidacy { candidate_id: candidate.to_string(), term })
}

fn vote_msg(voter: &str, term: u64, candidate: &str) -> Message {
    Message::Vote(Vote { voter_id: voter.to_string(), term, candidate: candidate.to_string() })
}

fn is_idler(r: &Role) -> bool {
    matches!(r, Role::Idler)
}

fn votes_of(r: &Role) -> Option<u64> {
    match r {
        Role::Candidate(c) => Some(c.votes),
        _ => None,
    }
}

fn followed(r: &Role) -> Option<String> {
    match r {
        Role::Follower(f) => Some(f.leader_id.clone()),
        _ => None,
    }
}

fn voted_for(r: &Role) -> Option<String> {
    match r {
        Role::Voter(v) => Some(v.candidate_id.clone()),
        _ => None,
    }
}

#[test]
fn voter_for_adopts_term_and_sends_vote() {
    let mut n = node(10, 2, 3);
    let (role, out) = voter_for(&mut n, Candidacy { candidate_id: "node.4".to_string(), term: 5 });
    assert_eq!(voted_for(&role), Some("node.4".to_string()));
    assert_eq!(n.term, 5);
    assert_eq!(n.last_activity, 10);
    assert_eq!(out.len(), 1);
    match &out[0] {
        Message::Vote(v) => {
            assert_eq!(v.voter_id, "node.0");
            assert_eq!(v.term, 5);
            assert_eq!(v.candidate, "node.4");
        }
        _ => panic!("expected a vote"),
    }
}

#[test]
fn follower_of_adopts_term_and_sends_nothing() {
    let mut n = node(10, 2, 3);
    let (role, out) = follower_of(&mut n, Heartbeat { leader_id: "node.2".to_string(), term: 4, nodes: vec![] });
    assert_eq!(followed(&role), Some("node.2".to_string()));
    assert_eq!(n.term, 4);
    assert_eq!(n.last_activity, 10);
    assert!(out.is_empty());
}

#[test]
fn heartbeat_lists_the_peers() {
    let mut n = node(20, 5, 6);
    let (role, out) = heartbeat(&mut n, Leader {});
    assert!(matches!(role, Role::Leader(_)));
    assert_eq!(n.last_activity, 20);
    assert_eq!(n.term, 6);
    match &out[..] {
        [Message::Heartbeat(h)] => {
            assert_eq!(h.leader_id, "node.0");
            assert_eq!(h.term, 6);
            assert_eq!(h.nodes, vec!["node.0".to_string(), "node.1".to_string(), "node.2".to_string()]);
        }
        _ => panic!("expected one heartbeat"),
    }
}

#[test]
fn go_into_idle_sends_nothing() {
    let (role, out) = go_into_idle();
    assert!(is_idler(&role));
    assert!(out.is_empty());
}

#[test]
fn election_starts_only_after_the_timeout() {
    let mut n = node(200, 49, 3);
    assert!(poll_election_after(&mut n, 151).is_none());
    assert_eq!((n.term, n.last_activity), (3, 49));
    let (role, out) = poll_election_after(&mut n, 150).unwrap();
    assert_eq!(votes_of(&role), Some(1));
    assert_eq!(n.term, 4);
    assert_eq!(n.last_activity, 200);
    match &out[..] {
        [Message::Candidacy(c)] => {
            assert_eq!(c.candidate_id, "node.0");
            assert_eq!(c.term, 4);
        }
        _ => panic!("expected one candidacy"),
    }
}

#[test]
fn drawn_timeouts_stay_in_range_and_vary() {
    let mut r = rng();
    let mut seen = std::collections::HashSet::new();
    for _ in 0..200 {
        let t = draw_election_timeout(&mut r);
        assert!((150..300).contains(&t));
        seen.insert(t);
    }
    assert!(seen.len() > 10);
}

#[test]
fn election_timeout_never_fires_early_and_always_fires_late() {
    let mut r = rng();
    let mut n = node(150, 0, 1);
    assert!(poll_election_timeout(&mut n, &mut r).is_none());
    assert_eq!(n.term, 1);
    let mut n = node(300, 0, 1);
    assert!(poll_election_timeout(&mut n, &mut r).is_some());
    assert_eq!(n.term, 2);
}

#[test]
fn idler_follows_heartbeats_of_its_term() {
    let mut r = rng();
    let mut n = node(5, 0, 3);
    let (role, out) = idler::process_msg(heartbeat_msg("node.1", 2), &mut n, &mut r);
    assert!(is_idler(&role) && out.is_empty() && n.term == 3 && n.last_activity == 0);
    let (role, out) = idler::process_msg(heartbeat_msg("node.1", 3), &mut n, &mut r);
    assert_eq!(followed(&role), Some("node.1".to_string()));
    assert!(out.is_empty());
    assert_eq!(n.last_activity, 5);
}

#[test]
fn idler_votes_in_candidacies_of_its_term() {
    let mut r = rng();
    let mut n = node(5, 0, 3);
    let (role, _) = idler::process_msg(candidacy_msg("node.2", 2), &mut n, &mut r);
    assert!(is_idler(&role));
    let (role, out) = idler::process_msg(candidacy_msg("node.2", 3), &mut n, &mut r);
    assert_eq!(voted_for(&role), Some("node.2".to_string()));
    assert_eq!(out.len(), 1);
    let (role, out) = idler::process_msg(vote_msg("node.1", 9, "node.0"), &mut n, &mut r);
    assert!(is_idler(&role) && out.is_empty() && n.term == 3);
}

#[test]
fn idler_poll_stands_for_election() {
    let mut r = rng();
    let mut n = node(400, 0, 0);
    let (role, out) = idler::poll(&mut n, &mut r);
    assert_eq!(votes_of(&role), Some(1));
    assert_eq!(n.term, 1);
    assert_eq!(out.len(), 1);
    let mut n = node(10, 0, 0);
    let (role, out) = idler::poll(&mut n, &mut r);
    assert!(is_idler(&role) && out.is_empty());
}

#[test]
fn voter_ignores_candidacies_and_votes() {
    let mut r = rng();
    let mut n = node(5, 0, 3);
    let v = || Voter { candidate_id: "node.2".to_string() };
    let (role, out) = voter::process_msg(candidacy_msg("node.1", 8), &mut n, v(), &mut r);
    assert_eq!(voted_for(&role), Some("node.2".to_string()));
    assert!(out.is_empty() && n.term == 3);
    let (role, _) = voter::process_msg(vote_msg("node.1", 3, "node.0"), &mut n, v(), &mut r);
    assert_eq!(voted_for(&role), Some("node.2".to_string()));
    let (role, _) = voter::process_msg(heartbeat_msg("node.1", 2), &mut n, v(), &mut r);
    assert_eq!(voted_for(&role), Some("node.2".to_string()));
    let (role, _) = voter::process_msg(heartbeat_msg("node.2", 3), &mut n, v(), &mut r);
    assert_eq!(followed(&role), Some("node.2".to_string()));
    let mut n = node(10, 0, 3);
    let (role, _) = voter::poll(&mut n, v(), &mut r);
    assert_eq!(voted_for(&role), Some("node.2".to_string()));
}

#[test]
fn follower_handles_heartbeats() {
    let mut r = rng();
    let f = || Follower { leader_id: "node.1".to_string() };
    let mut n = node(7, 1, 3);
    let (role, _) = follower::process_msg(heartbeat_msg("node.2", 2), &mut n, f(), &mut r);
    assert_eq!(followed(&role), Some("node.1".to_string()));
    assert_eq!(n.last_activity, 1);
    let (role, _) = follower::process_msg(heartbeat_msg("node.1", 3), &mut n, f(), &mut r);
    assert_eq!(followed(&role), Some("node.1".to_string()));
    assert_eq!(n.last_activity, 7);
    let mut n = node(9, 1, 3);
    let (role, out) = follower::process_msg(heartbeat_msg("node.2", 3), &mut n, f(), &mut r);
    assert!(is_idler(&role) && out.is_empty());
    assert_eq!(n.last_activity, 1);
    let (role, _) = follower::process_msg(heartbeat_msg("node.2", 4), &mut n, f(), &mut r);
    assert_eq!(followed(&role), Some("node.2".to_string()));
    assert_eq!((n.term, n.last_activity), (4, 9));
}

#[test]
fn follower_votes_only_in_later_terms() {
    let mut r = rng();
    let f = || Follower { leader_id: "node.1".to_string() };
    let mut n = node(7, 1, 3);
    let (role, out) = follower::process_msg(candidacy_msg("node.2", 3), &mut n, f(), &mut r);
    assert_eq!(followed(&role), Some("node.1".to_string()));
    assert!(out.is_empty());
    let (role, out) = follower::process_msg(candidacy_msg("node.2", 4), &mut n, f(), &mut r);
    assert_eq!(voted_for(&role), Some("node.2".to_string()));
    assert_eq!(out.len(), 1);
    assert_eq!(n.term, 4);
    let (role, _) = follower::process_msg(vote_msg("node.2", 4, "node.0"), &mut n, f(), &mut r);
    assert_eq!(followed(&role), Some("node.1".to_string()));
}

#[test]
fn candidate_counts_votes_for_itself_in_its_term() {
    let mut r = rng();
    let mut n = node(7, 1, 3);
    let c = |votes| Candidate { votes };
    let (role, _) = candidate::process_msg(vote_msg("node.1", 3, "node.0"), &mut n, c(1), &mut r);
    assert_eq!(votes_of(&role), Some(2));
    let (role, _) = candidate::process_msg(vote_msg("node.1", 2, "node.0"), &mut n, c(1), &mut r);
    assert_eq!(votes_of(&role), Some(1));
    let (role, _) = candidate::process_msg(vote_msg("node.1", 3, "node.2"), &mut n, c(1), &mut r);
    assert_eq!(votes_of(&role), Some(1));
}

#[test]
fn candidate_yields_to_heartbeats_and_later_candidacies() {
    let mut r = rng();
    let c = || Candidate { votes: 1 };
    let mut n = node(7, 1, 3);
    let (role, _) = candidate::process_msg(heartbeat_msg("node.2", 2), &mut n, c(), &mut r);
    assert_eq!(votes_of(&role), Some(1));
    let (role, _) = candidate::process_msg(heartbeat_msg("node.2", 3), &mut n, c(), &mut r);
    assert_eq!(followed(&role), Some("node.2".to_string()));
    let mut n = node(7, 1, 3);
    let (role, _) = candidate::process_msg(candidacy_msg("node.2", 3), &mut n, c(), &mut r);
    assert_eq!(votes_of(&role), Some(1));
    let (role, out) = candidate::process_msg(candidacy_msg("node.2", 4), &mut n, c(), &mut r);
    assert_eq!(voted_for(&role), Some("node.2".to_string()));
    assert_eq!(out.len(), 1);
}

#[test]
fn candidate_with_majority_leads() {
    let mut r = rng();
    let mut n = node(7, 1, 3);
    let (role, out) = candidate::poll(&mut n, Candidate { votes: 1 }, &mut r);
    assert_eq!(votes_of(&role), Some(1));
    assert!(out.is_empty());
    let (role, out) = candidate::poll(&mut n, Candidate { votes: 2 }, &mut r);
    assert!(matches!(role, Role::Leader(_)));
    assert!(matches!(&out[..], [Message::Heartbeat(h)] if h.term == 3 && h.leader_id == "node.0"));
    assert_eq!(n.last_activity, 7);
}

#[test]
fn candidate_stands_again_after_timeout() {
    let mut r = rng();
    let mut n = node(1000, 1, 3);
    let (role, out) = candidate::poll(&mut n, Candidate { votes: 1 }, &mut r);
    assert_eq!(votes_of(&role), Some(1));
    assert_eq!(n.term, 4);
    assert!(matches!(&out[..], [Message::Candidacy(c)] if c.term == 4));
}

#[test]
fn leader_heartbeats_every_period() {
    let mut r = rng();
    let mut n = node(14, 0, 3);
    let (role, out) = leader::poll(&mut n, Leader {}, &mut r);
    assert!(matches!(role, Role::Leader(_)) && out.is_empty());
    let mut n = node(15, 0, 3);
    let (_, out) = leader::poll(&mut n, Leader {}, &mut r);
    assert_eq!(out.len(), 1);
    assert_eq!(n.last_activity, 15);
}

#[test]
fn leader_steps_down() {
    let mut r = rng();
    let mut n = node(14, 0, 3);
    let (role, _) = leader::process_msg(heartbeat_msg("node.0", 3), &mut n, Leader {}, &mut r);
    assert!(matches!(role, Role::Leader(_)));
    let (role, _) = leader::process_msg(heartbeat_msg("node.1", 2), &mut n, Leader {}, &mut r);
    assert!(matches!(role, Role::Leader(_)));
    let (role, _) = leader::process_msg(candidacy_msg("node.1", 9), &mut n, Leader {}, &mut r);
    assert!(matches!(role, Role::Leader(_)));
    let (role, out) = leader::process_msg(heartbeat_msg("node.1", 3), &mut n, Leader {}, &mut r);
    assert!(is_idler(&role) && out.is_empty() && n.term == 3);
    let (role, _) = leader::process_msg(heartbeat_msg("node.1", 4), &mut n, Leader {}, &mut r);
    assert_eq!(followed(&role), Some("node.1".to_string()));
    assert_eq!(n.term, 4);
}

#[test]
fn stale_messages_are_ignored_in_every_role() {
    let mut r = rng();
    let roles = || {
        vec![
            Role::Idler,
            Role::Voter(Voter { candidate_id: "node.1".to_string() }),
            Role::Follower(Follower { leader_id: "node.1".to_string() }),
            Role::Candidate(Candidate { votes: 1 }),
            Role::Leader(Leader {}),
        ]
    };
    for msg in [heartbeat_msg("node.1", 4), candidacy_msg("node.1", 4), vote_msg("node.1", 4, "node.0")] {
        for role in roles() {
            let before = format!("{:?}", role);
            let mut n = node(50, 10, 5);
            let (after, out) = roles::process_msg(msg.duplicate(), &mut n, role, &mut r);
            assert_eq!(format!("{:?}", after), before);
            assert!(out.is_empty());
            assert_eq!((n.time, n.last_activity, n.term), (50, 10, 5));
        }
    }
}

#[test]
fn only_a_candidate_with_majority_becomes_leader() {
    let mut r = rng();
    let mut n = node(10, 9, 1);
    let (role, _) = roles::poll(&mut n, Role::Candidate(Candidate { votes: 1 }), &mut r);
    assert!(!matches!(role, Role::Leader(_)));
    let (role, _) = roles::poll(&mut n, Role::Candidate(Candidate { votes: 2 }), &mut r);
    assert!(matches!(role, Role::Leader(_)));
    let (role, _) = roles::poll(&mut n, Role::Follower(Follower { leader_id: "node.1".to_string() }), &mut r);
    assert!(!matches!(role, Role::Leader(_)));
}
