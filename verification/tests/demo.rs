use rand::rngs::StdRng;
use rand::SeedableRng;
use raft::demo::{run_tick, tick_fits_now, tick_with, Message, MessageVariant, Node, Settings, State};

fn follower(last: u64, round: u64) -> Node {
    Node { state: State::Follower { last_recv_heartbeat: last, round, voted: None } }
}

fn vote(for_: u64, by: u64) -> Message {
    Message { variant: MessageVariant::Vote { for_, by } }
}

fn heartbeat(leader: u64) -> Message {
    Message { variant: MessageVariant::Heartbeat(leader) }
}

fn settings() -> Settings {
    Settings { election_timeout: 10 }
}

#[test]
fn follower_echoes_self_votes_and_refreshes() {
    let et = settings().election_timeout;
    let mut nodes = vec![follower(0, 0), follower(0, 0), follower(0, 0)];
    let mut inboxes = vec![vec![], vec![vote(2, 2), heartbeat(0), vote(0, 2)], vec![]];
    tick_with(&mut nodes, &mut inboxes, 5, et, &vec![10, 10, 10]);
    assert_eq!(nodes[1].state, State::Follower { last_recv_heartbeat: 5, round: 0, voted: None });
    assert!(inboxes[1].is_empty());
    assert_eq!(inboxes[0], vec![vote(2, 1)]);
    // node 2 read the echo in the same tick and echoed nothing: it is not a self-vote
    assert!(inboxes[2].is_empty());
    assert_eq!(nodes[2].state, State::Follower { last_recv_heartbeat: 5, round: 0, voted: None });
}

#[test]
fn follower_times_out_into_candidacy() {
    let et = settings().election_timeout;
    let mut nodes = vec![follower(0, 3), follower(40, 0), follower(40, 0)];
    let mut inboxes = vec![vec![], vec![], vec![]];
    tick_with(&mut nodes, &mut inboxes, 50, et, &vec![19, 19, 19]);
    assert_eq!(nodes[0].state, State::Candidate { round: 4, votes: 1 });
    // nodes 1 and 2 heard the self-vote: they echo it and refresh
    assert_eq!(nodes[1].state, State::Follower { last_recv_heartbeat: 50, round: 0, voted: None });
    assert_eq!(inboxes[0], vec![vote(0, 1), vote(0, 2)]);
    assert_eq!(inboxes[2], vec![]);
    assert_eq!(inboxes[1], vec![vote(0, 2)]);
}

#[test]
fn candidate_counts_one_vote_per_tick() {
    let mut nodes = vec![Node { state: State::Candidate { round: 1, votes: 1 } }, follower(9, 0), follower(9, 0)];
    let mut inboxes = vec![vec![vote(2, 2), vote(0, 1), vote(0, 2), heartbeat(1)], vec![], vec![]];
    tick_with(&mut nodes, &mut inboxes, 10, 10, &vec![10, 10, 10]);
    assert_eq!(nodes[0].state, State::Candidate { round: 1, votes: 2 });
    assert_eq!(inboxes[0], vec![vote(0, 2), heartbeat(1)]);
}

#[test]
fn candidate_with_majority_leads_and_heartbeat_makes_follower() {
    let mut nodes = vec![Node { state: State::Candidate { round: 1, votes: 2 } }, Node { state: State::Candidate { round: 1, votes: 1 } }, follower(9, 0)];
    let mut inboxes = vec![vec![heartbeat(1)], vec![vote(2, 2), heartbeat(2), vote(1, 0)], vec![]];
    tick_with(&mut nodes, &mut inboxes, 12, 10, &vec![10, 10, 10]);
    assert_eq!(nodes[0].state, State::Leader { last_sent_heartbeat: 0, round: 12 });
    assert_eq!(inboxes[0], vec![heartbeat(1)]);
    assert_eq!(nodes[1].state, State::Follower { last_recv_heartbeat: 12, round: 12, voted: None });
    assert_eq!(inboxes[1], vec![vote(1, 0)]);
}

#[test]
fn leader_sends_heartbeats_after_half_a_timeout() {
    let mut nodes = vec![follower(20, 0), Node { state: State::Leader { last_sent_heartbeat: 0, round: 1 } }, follower(20, 0)];
    let mut inboxes = vec![vec![], vec![], vec![]];
    tick_with(&mut nodes, &mut inboxes, 5, 10, &vec![10, 10, 10]);
    assert!(inboxes.iter().all(|b| b.is_empty()));
    tick_with(&mut nodes, &mut inboxes, 6, 10, &vec![10, 10, 10]);
    assert_eq!(inboxes[0], vec![heartbeat(1)]);
    assert_eq!(inboxes[1], vec![]);
    assert_eq!(inboxes[2], vec![]);
    assert_eq!(nodes[0].state, State::Follower { last_recv_heartbeat: 20, round: 0, voted: None });
    assert_eq!(nodes[2].state, State::Follower { last_recv_heartbeat: 6, round: 0, voted: None });
    assert_eq!(nodes[1].state, State::Leader { last_sent_heartbeat: 0, round: 1 });
}

#[test]
fn hundredth_tick_resets_all_three() {
    let mut nodes = vec![Node { state: State::Leader { last_sent_heartbeat: 0, round: 1 } }, follower(99, 0), follower(99, 0)];
    let mut inboxes = vec![vec![], vec![], vec![]];
    tick_with(&mut nodes, &mut inboxes, 100, 10, &vec![10, 10, 10]);
    for n in &nodes {
        assert_eq!(n.state, State::Follower { last_recv_heartbeat: 90, round: 100, voted: None });
    }
}

#[test]
fn tick_bounds() {
    let nodes = vec![follower(0, 0), follower(0, 0), follower(0, 0)];
    let inboxes = vec![vec![], vec![], vec![]];
    assert!(tick_fits_now(&nodes, &inboxes, 1, 10));
    assert!(!tick_fits_now(&nodes, &inboxes, 1, 0));
    assert!(!tick_fits_now(&nodes, &vec![vec![]], 1, 10));
    assert!(!tick_fits_now(&nodes[..2].to_vec(), &inboxes[..2].to_vec(), 100, 10));
    let big = vec![follower(u64::MAX - 5, 0)];
    assert!(!tick_fits_now(&big, &vec![vec![]], 1, 10));
}

#[test]
fn random_ticks_run() {
    let mut rng = StdRng::seed_from_u64(5);
    let et = settings().election_timeout;
    let mut nodes = vec![follower(0, 0), follower(0, 0), follower(0, 0)];
    let mut inboxes = vec![vec![], vec![], vec![]];
    let mut saw_candidate = false;
    for i in 1..60 {
        assert!(tick_fits_now(&nodes, &inboxes, i, et));
        run_tick(&mut nodes, &mut inboxes, i, et, &mut rng);
        saw_candidate |= nodes.iter().any(|n| !matches!(n.state, State::Follower { .. }));
        if i < et {
            assert!(nodes.iter().all(|n| matches!(n.state, State::Follower { .. })));
        }
    }
    assert!(saw_candidate);
}
