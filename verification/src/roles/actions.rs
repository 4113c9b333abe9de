//! The transitions that several roles share.
use vstd::prelude::*;
use rand::Rng;
use rand::rngs::StdRng;
use crate::message::{Candidacy, CandidacyView, Heartbeat, HeartbeatView, Message, MessageView, Vote, VoteView};
use crate::node::{Candidate, Follower, Leader, Node, NodeView, Role, RoleView, Voter};
use crate::roles::{outcome_of, Outcome};
use crate::{Time, ELECTION_TIMEOUT};

verus! {

#[verifier::external_type_specification]
#[verifier::external_body]
pub struct ExStdRng(StdRng);

/// Draws a number with `rand::Rng::gen_range(low, high)`. rand documents the
/// result to lie in `[low, high)`, and the call to panic when `low >= high`,
/// which `requires` rules out. Which number in the range comes is not stated.
#[verifier::external_body]
pub(crate) fn gen_range(rng: &mut StdRng, low: u64, high: u64) -> (r: u64)
    requires
        low < high,
    ensures
        low <= r < high,
{
    rng.gen_range(low, high)
}

/// The values that an election timeout is drawn from.
pub open spec fn timeout_in_range(t: Time) -> bool {
    ELECTION_TIMEOUT <= t < 2 * ELECTION_TIMEOUT
}

/// Draws how long to wait for a leader before standing for election.
pub fn draw_election_timeout(rng: &mut StdRng) -> (t: Time)
    ensures
        timeout_in_range(t),
{
    gen_range(rng, ELECTION_TIMEOUT, ELECTION_TIMEOUT * 2)
}

/// The node after it was active: `last_activity` is its clock.
pub open spec fn active(n: NodeView) -> NodeView {
    NodeView { last_activity: n.time, ..n }
}

/// The node votes for the candidate of a candidacy and adopts its term.
pub open spec fn voter_for_spec(n: NodeView, c: CandidacyView) -> Outcome {
    (
        NodeView { term: c.term, last_activity: n.time, ..n },
        RoleView::Voter { candidate_id: c.candidate_id },
        seq![MessageView::Vote(VoteView { voter_id: n.id, term: c.term, candidate: c.candidate_id })],
    )
}

/// The node follows the sender of a heartbeat and adopts its term.
pub open spec fn follower_of_spec(n: NodeView, h: HeartbeatView) -> Outcome {
    (
        NodeView { term: h.term, last_activity: n.time, ..n },
        RoleView::Follower { leader_id: h.leader_id },
        Seq::empty(),
    )
}

/// The leader announces itself to the cluster.
pub open spec fn heartbeat_spec(n: NodeView) -> Outcome {
    (
        active(n),
        RoleView::Leader,
        seq![MessageView::Heartbeat(HeartbeatView { leader_id: n.id, term: n.term, nodes: n.peers })],
    )
}

/// The node stands for election in the next term, with its own vote.
pub open spec fn candidacy_spec(n: NodeView) -> Outcome {
    let term = (n.term + 1) as u64;
    (
        NodeView { term: term, last_activity: n.time, ..n },
        RoleView::Candidate { votes: 1 },
        seq![MessageView::Candidacy(CandidacyView { candidate_id: n.id, term: term })],
    )
}

/// Whether the node has waited longer than `timeout` since it was last active.
pub open spec fn timed_out(n: NodeView, timeout: Time) -> bool {
    n.time > n.last_activity + timeout
}

/// What the election timeout does: a candidacy once it has passed.
pub open spec fn election_timeout_spec(n: NodeView, timeout: Time) -> Option<Outcome> {
    if timed_out(n, timeout) {
        Some(candidacy_spec(n))
    } else {
        None
    }
}

/// The node's numbers leave room for the timeout check with `timeout`, and
/// for the next term where the timeout has passed.
pub open spec fn election_timeout_fits(n: NodeView, timeout: Time) -> bool {
    &&& n.last_activity + timeout <= u64::MAX
    &&& timed_out(n, timeout) ==> n.term < u64::MAX
}

/// `election_timeout_fits` for every timeout that can be drawn.
pub open spec fn election_fits(n: NodeView) -> bool {
    &&& n.last_activity + 2 * ELECTION_TIMEOUT - 1 <= u64::MAX
    &&& timed_out(n, ELECTION_TIMEOUT) ==> n.term < u64::MAX
}

pub proof fn lemma_election_fits(n: NodeView, t: Time)
    requires
        election_fits(n),
        timeout_in_range(t),
    ensures
        election_timeout_fits(n, t),
{
}

/// A node never stands for election before an election timeout's worth of
/// time without activity, and always stands once twice that has passed,
/// whatever timeout it draws.
pub proof fn lemma_election_timing(n: NodeView, timeout: Time)
    requires
        timeout_in_range(timeout),
    ensures
        n.time <= n.last_activity + ELECTION_TIMEOUT ==> election_timeout_spec(n, timeout) is None,
        n.time >= n.last_activity + 2 * ELECTION_TIMEOUT ==> election_timeout_spec(n, timeout) is Some,
{
}

/// The node adopts the term of a candidacy and votes for its candidate.
pub fn voter_for(node: &mut Node, candidacy: Candidacy) -> (r: (Role, Vec<Message>))
    ensures
        outcome_of(final(node)@, r) == voter_for_spec(old(node)@, candidacy@),
{
    node.term = candidacy.term;
    node.last_activity = node.time;
    let voter = Voter { candidate_id: candidacy.candidate_id.clone() };
    let out_msg: Message = Vote {
        voter_id: node.id.clone(),
        term: candidacy.term,
        candidate: candidacy.candidate_id,
    }.into();
    let out = vec![out_msg];
    proof {
        assert(crate::message::msgs_view(out@) =~= voter_for_spec(old(node)@, candidacy@).2);
    }
    (voter.into(), out)
}

/// The node adopts the term of a heartbeat and follows its sender.
pub fn follower_of(node: &mut Node, heartbeat: Heartbeat) -> (r: (Role, Vec<Message>))
    ensures
        outcome_of(final(node)@, r) == follower_of_spec(old(node)@, heartbeat@),
{
    node.term = heartbeat.term;
    node.last_activity = node.time;
    let follower = Follower { leader_id: heartbeat.leader_id };
    let out: Vec<Message> = vec![];
    proof {
        assert(crate::message::msgs_view(out@) =~= Seq::empty());
    }
    (follower.into(), out)
}

/// The leader sends a heartbeat, with the names of the cluster's nodes.
pub fn heartbeat(node: &mut Node, leader: Leader) -> (r: (Role, Vec<Message>))
    ensures
        outcome_of(final(node)@, r) == heartbeat_spec(old(node)@),
{
    node.last_activity = node.time;
    let out_msg: Message = Heartbeat {
        leader_id: node.id.clone(),
        term: node.term,
        nodes: crate::message::clone_ids(&node.peers),
    }.into();
    let out = vec![out_msg];
    proof {
        assert(crate::message::msgs_view(out@) =~= heartbeat_spec(old(node)@).2);
    }
    (leader.into(), out)
}

/// The node gives up its role and waits, having voted for nobody.
pub fn go_into_idle() -> (r: (Role, Vec<Message>))
    ensures
        r.0@ == RoleView::Idler,
        r.1@.len() == 0,
{
    (Role::Idler, vec![])
}

/// Starts an election where the node has waited longer than `timeout` since
/// it was last active; `None` where it has not.
pub fn poll_election_after(node: &mut Node, timeout: Time) -> (r: Option<(Role, Vec<Message>)>)
    requires
        election_timeout_fits(old(node)@, timeout),
    ensures
        match r {
            Some(res) => election_timeout_spec(old(node)@, timeout) == Some(outcome_of(final(node)@, res)),
            None => election_timeout_spec(old(node)@, timeout) is None && final(node)@ == old(node)@,
        },
{
    if node.time > node.last_activity + timeout {
        node.term = node.term + 1;
        node.last_activity = node.time;
        let candidate = Candidate { votes: 1 };
        let out_msg: Message = Candidacy { candidate_id: node.id.clone(), term: node.term }.into();
        let out = vec![out_msg];
        proof {
            assert(crate::message::msgs_view(out@) =~= candidacy_spec(old(node)@).2);
        }
        return Some((candidate.into(), out));
    }
    None
}

/// Starts an election where the node has waited for a leader longer than a
/// timeout drawn from `rng`.
pub fn poll_election_timeout(node: &mut Node, rng: &mut StdRng) -> (r: Option<(Role, Vec<Message>)>)
    requires
        election_fits(old(node)@),
    ensures
        exists|t: Time| #[trigger] timeout_in_range(t) && match r {
            Some(res) => election_timeout_spec(old(node)@, t) == Some(outcome_of(final(node)@, res)),
            None => election_timeout_spec(old(node)@, t) is None && final(node)@ == old(node)@,
        },
{
    let timeout = draw_election_timeout(rng);
    proof {
        lemma_election_fits(node@, timeout);
    }
    poll_election_after(node, timeout)
}

} // verus!
