//! The roles a node plays, and how each one polls and takes a message.
use vstd::prelude::*;
use rand::rngs::StdRng;
use crate::message::{msgs_view, CandidacyView, HeartbeatView, Message, MessageView, VoteView};
use crate::node::{Node, NodeView, Role, RoleView};
use crate::roles::actions::{election_fits, timed_out, timeout_in_range};
use crate::{Time, ELECTION_TIMEOUT};

pub mod actions;
pub mod idler;
pub mod voter;
pub mod follower;
pub mod candidate;
pub mod leader;

verus! {

/// What a step leaves: the node, its role and the messages it sends.
pub type Outcome = (NodeView, RoleView, Seq<MessageView>);

/// The outcome of a step, given the node after it and what it returned.
pub open spec fn outcome_of(node: NodeView, result: (Role, Vec<Message>)) -> Outcome {
    (node, result.0@, msgs_view(result.1@))
}

/// The node and role unchanged, with nothing sent.
pub open spec fn unchanged(n: NodeView, r: RoleView) -> Outcome {
    (n, r, Seq::empty())
}

/// What a node in role `r` does with message `m`.
pub open spec fn process_msg_spec(m: MessageView, n: NodeView, r: RoleView) -> Outcome {
    match r {
        RoleView::Idler => idler::process_msg_spec(m, n),
        RoleView::Voter { candidate_id } => voter::process_msg_spec(m, n, candidate_id),
        RoleView::Follower { leader_id } => follower::process_msg_spec(m, n, leader_id),
        RoleView::Candidate { votes } => candidate::process_msg_spec(m, n, votes),
        RoleView::Leader => leader::process_msg_spec(m, n),
    }
}

/// The numbers of taking message `m` in role `r` fit in their types.
pub open spec fn process_msg_fits(m: MessageView, n: NodeView, r: RoleView) -> bool {
    match r {
        RoleView::Candidate { votes } => candidate::process_msg_fits(m, n, votes),
        _ => true,
    }
}

/// What a poll of a node in role `r` does, where the election timeout that
/// it draws, if it draws one, is `timeout`.
pub open spec fn poll_spec(n: NodeView, r: RoleView, timeout: Time) -> Outcome {
    match r {
        RoleView::Idler => idler::poll_spec(n, timeout),
        RoleView::Voter { candidate_id } => voter::poll_spec(n, candidate_id, timeout),
        RoleView::Follower { leader_id } => follower::poll_spec(n, leader_id, timeout),
        RoleView::Candidate { votes } => candidate::poll_spec(n, votes, timeout),
        RoleView::Leader => leader::poll_spec(n),
    }
}

/// Whether a poll in role `r` draws an election timeout: every role does
/// but a leader and a candidate with a majority.
pub open spec fn poll_draws(n: NodeView, r: RoleView) -> bool {
    match r {
        RoleView::Leader => false,
        RoleView::Candidate { votes } => !candidate::has_majority(n, votes),
        _ => true,
    }
}

/// The numbers of a poll in role `r` fit in their types, whatever timeout
/// is drawn.
pub open spec fn poll_fits(n: NodeView, r: RoleView) -> bool {
    match r {
        RoleView::Candidate { votes } => candidate::poll_fits(n, votes),
        RoleView::Leader => leader::poll_fits(n),
        _ => election_fits(n),
    }
}

/// Whether a poll in role `r` with the election timeout `timeout` starts an
/// election, which takes the node to the next term.
pub open spec fn poll_starts_election(n: NodeView, r: RoleView, timeout: Time) -> bool {
    poll_draws(n, r) && timed_out(n, timeout)
}

/// What a step keeps: the node's name, clock and peers stay; its term never
/// goes down; its last activity either stays or becomes its clock, so where
/// it was not ahead of the clock, it is not after the step either; and
/// everything it sends carries its name and the term it holds after the
/// step.
pub open spec fn step_keeps(n: NodeView, o: Outcome) -> bool {
    &&& o.0.id == n.id
    &&& o.0.time == n.time
    &&& o.0.peers == n.peers
    &&& o.0.term >= n.term
    &&& o.0.last_activity == n.last_activity || o.0.last_activity == n.time
    &&& n.last_activity <= n.time ==> o.0.last_activity <= o.0.time
    &&& forall|i: int| 0 <= i < o.2.len() ==> (#[trigger] o.2[i]).sender() == n.id && o.2[i].term() == o.0.term
}

/// Taking a message keeps the node's name, clock and peers, never lowers its
/// term, never puts its last activity ahead of its clock, and stamps all it
/// sends with its name and its new term.
pub proof fn lemma_process_msg_keeps(m: MessageView, n: NodeView, r: RoleView)
    ensures
        step_keeps(n, process_msg_spec(m, n, r)),
{
}

/// A poll, whatever timeout it draws, keeps the node's name, clock and
/// peers, never lowers its term, keeps its last activity or sets it to its
/// clock, and stamps all it sends with its name and its new term. It holds
/// wherever the next term exists when the poll starts an election.
pub proof fn lemma_poll_keeps(n: NodeView, r: RoleView, timeout: Time)
    requires
        poll_starts_election(n, r, timeout) ==> n.term < u64::MAX,
    ensures
        step_keeps(n, poll_spec(n, r, timeout)),
{
}

/// A candidate's poll makes it leader exactly when more than half of the
/// cluster's nodes voted for it, `2 * votes > peers`; it then sends a
/// heartbeat with its name, term and peers and counts that as activity.
pub proof fn lemma_leader_iff_majority(n: NodeView, votes: u64, timeout: Time)
    ensures
        (poll_spec(n, RoleView::Candidate { votes }, timeout).1 is Leader) <==> 2 * votes > n.peers.len(),
        2 * votes > n.peers.len() ==> ({
            let o = poll_spec(n, RoleView::Candidate { votes }, timeout);
            &&& o.0 == NodeView { last_activity: n.time, ..n }
            &&& o.2 == seq![MessageView::Heartbeat(HeartbeatView { leader_id: n.id, term: n.term, nodes: n.peers })]
        }),
{
}

/// A node that waits (an idler, a voter, a follower, or a candidate without
/// more than half of the votes) and has heard nothing for twice the election
/// timeout stands for election, whatever timeout it drew: it moves to the
/// next term as a candidate with its own vote, counts that as activity and
/// sends a candidacy in its name for that term.
pub proof fn lemma_silence_starts_election(n: NodeView, r: RoleView, timeout: Time)
    requires
        timeout_in_range(timeout),
        n.time >= n.last_activity + 2 * ELECTION_TIMEOUT,
        n.term < u64::MAX,
        r is Idler || r is Voter || r is Follower || (r matches RoleView::Candidate { votes } && 2 * votes
            <= n.peers.len()),
    ensures
        ({
            let o = poll_spec(n, r, timeout);
            &&& o.1 == RoleView::Candidate { votes: 1 }
            &&& o.0 == NodeView { term: (n.term + 1) as u64, last_activity: n.time, ..n }
            &&& o.2 == seq![MessageView::Candidacy(CandidacyView { candidate_id: n.id, term: (n.term + 1) as u64 })]
        }),
{
}

/// A node that waits and was active within the election timeout keeps its
/// role and state and sends nothing, whatever timeout it drew.
pub proof fn lemma_no_early_election(n: NodeView, r: RoleView, timeout: Time)
    requires
        timeout_in_range(timeout),
        n.time <= n.last_activity + ELECTION_TIMEOUT,
        r is Idler || r is Voter || r is Follower || (r matches RoleView::Candidate { votes } && 2 * votes
            <= n.peers.len()),
    ensures
        poll_spec(n, r, timeout) == (n, r, Seq::<MessageView>::empty()),
{
}

/// A heartbeat of the node's term or a later one makes every node but a
/// leader follow its sender in the heartbeat's term (a follower: where the
/// term is later, or the sender is its own leader); a leader does so on a
/// later term. The node counts it as activity and sends nothing.
pub proof fn lemma_heartbeat_followed(h: HeartbeatView, n: NodeView, r: RoleView)
    requires
        h.term >= n.term,
        r is Leader ==> h.term > n.term,
        r matches RoleView::Follower { leader_id } ==> h.term > n.term || h.leader_id == leader_id,
    ensures
        ({
            let o = process_msg_spec(MessageView::Heartbeat(h), n, r);
            &&& o.1 == RoleView::Follower { leader_id: h.leader_id }
            &&& o.0 == NodeView { term: h.term, last_activity: n.time, ..n }
            &&& o.2.len() == 0
        }),
{
}

/// A candidate counts a vote for itself in its own term as exactly one more
/// vote, and no other vote; a vote changes nothing else, in any role.
pub proof fn lemma_votes_counted(v: VoteView, n: NodeView, r: RoleView)
    requires
        r matches RoleView::Candidate { votes } ==> votes < u64::MAX,
    ensures
        ({
            let o = process_msg_spec(MessageView::Vote(v), n, r);
            &&& o.0 == n
            &&& o.2.len() == 0
            &&& match r {
                RoleView::Candidate { votes } => o.1 == RoleView::Candidate {
                    votes: if v.term == n.term && v.candidate == n.id { (votes + 1) as u64 } else { votes },
                },
                _ => o.1 == r,
            }
        }),
{
}

/// A candidacy is answered with a vote for its candidate, in its term and in
/// the node's name, exactly by an idler on a candidacy of its term or a
/// later one, and by a follower or a candidate on a later one; the node then
/// is a voter for that candidate in that term. A voter or a leader never
/// votes.
pub proof fn lemma_candidacy_answered(c: CandidacyView, n: NodeView, r: RoleView)
    ensures
        ({
            let o = process_msg_spec(MessageView::Candidacy(c), n, r);
            let votes = match r {
                RoleView::Idler => c.term >= n.term,
                RoleView::Follower { .. } => c.term > n.term,
                RoleView::Candidate { .. } => c.term > n.term,
                _ => false,
            };
            &&& votes ==> o == (
                NodeView { term: c.term, last_activity: n.time, ..n },
                RoleView::Voter { candidate_id: c.candidate_id },
                seq![MessageView::Vote(VoteView { voter_id: n.id, term: c.term, candidate: c.candidate_id })],
            )
            &&& !votes ==> o == (n, r, Seq::<MessageView>::empty())
        }),
{
}

/// Taking a message leaves the node's term as it was or sets it to the
/// message's term.
pub proof fn lemma_process_msg_term(m: MessageView, n: NodeView, r: RoleView)
    ensures
        process_msg_spec(m, n, r).0.term == n.term || process_msg_spec(m, n, r).0.term == m.term(),
{
}

/// Where a poll's numbers fit, an election it starts has a next term.
pub proof fn lemma_fits_no_wrap(n: NodeView, r: RoleView, timeout: Time)
    requires
        poll_fits(n, r),
        timeout_in_range(timeout),
    ensures
        poll_starts_election(n, r, timeout) ==> n.term < u64::MAX,
{
}

/// A message from an earlier term than the node's changes nothing and is
/// answered with nothing, whatever the node's role.
pub proof fn lemma_stale_message_ignored(m: MessageView, n: NodeView, r: RoleView)
    requires
        m.term() < n.term,
    ensures
        process_msg_spec(m, n, r) == unchanged(n, r),
{
}

/// No message makes a node leader; a poll makes one leader only where it is
/// a candidate with the votes of more than half of the cluster.
pub proof fn lemma_only_majority_leads(m: MessageView, n: NodeView, r: RoleView, timeout: Time)
    ensures
        process_msg_spec(m, n, r).1 is Leader ==> r is Leader,
        poll_spec(n, r, timeout).1 is Leader ==> r is Leader || (r matches RoleView::Candidate { votes }
            && candidate::has_majority(n, votes)),
{
}

/// Hands a message to the role that the node plays.
pub fn process_msg(msg: Message, node: &mut Node, role: Role, rng: &mut StdRng) -> (r: (Role, Vec<Message>))
    requires
        process_msg_fits(msg@, old(node)@, role@),
    ensures
        *final(rng) == *old(rng),
        outcome_of(final(node)@, r) == process_msg_spec(msg@, old(node)@, role@),
{
    match role {
        Role::Idler => idler::process_msg(msg, node, rng),
        Role::Voter(voter) => voter::process_msg(msg, node, voter, rng),
        Role::Follower(follower) => follower::process_msg(msg, node, follower, rng),
        Role::Candidate(candidate) => candidate::process_msg(msg, node, candidate, rng),
        Role::Leader(leader) => leader::process_msg(msg, node, leader, rng),
    }
}

/// Polls the role that the node plays.
pub fn poll(node: &mut Node, role: Role, rng: &mut StdRng) -> (r: (Role, Vec<Message>))
    requires
        role@ is Candidate ==> old(node)@.well_formed(),
        poll_fits(old(node)@, role@),
    ensures
        !poll_draws(old(node)@, role@) ==> *final(rng) == *old(rng),
        exists|t: Time| #[trigger] timeout_in_range(t)
            && outcome_of(final(node)@, r) == poll_spec(old(node)@, role@, t),
{
    match role {
        Role::Idler => idler::poll(node, rng),
        Role::Voter(voter) => voter::poll(node, voter, rng),
        Role::Follower(follower) => follower::poll(node, follower, rng),
        Role::Candidate(candidate) => candidate::poll(node, candidate, rng),
        Role::Leader(leader) => {
            let r = leader::poll(node, leader, rng);
            assert(timeout_in_range(crate::ELECTION_TIMEOUT));
            r
        },
    }
}

} // verus!
