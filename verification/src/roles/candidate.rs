//! A node that stands for election and counts its votes.
use vstd::prelude::*;
use rand::rngs::StdRng;
use crate::message::{Message, MessageView};
use crate::node::{Candidate, Leader, Node, NodeView, Role, RoleView};
use crate::roles::actions::{
    election_fits, election_timeout_spec, follower_of, follower_of_spec, heartbeat, heartbeat_spec,
    poll_election_timeout, timeout_in_range, voter_for, voter_for_spec,
};
use crate::roles::{outcome_of, unchanged, Outcome};
use crate::{Time, ELECTION_TIMEOUT};

verus! {

/// More than half of the cluster's nodes have voted for the candidate.
pub open spec fn has_majority(n: NodeView, votes: u64) -> bool {
    votes > n.peers.len() / 2
}

/// A candidate with a majority becomes the leader and sends a heartbeat;
/// without one it stands again once `timeout` has passed without activity.
pub open spec fn poll_spec(n: NodeView, votes: u64, timeout: Time) -> Outcome {
    if has_majority(n, votes) {
        heartbeat_spec(n)
    } else {
        match election_timeout_spec(n, timeout) {
            Some(o) => o,
            None => unchanged(n, RoleView::Candidate { votes }),
        }
    }
}

/// The numbers of a poll of this candidate fit in their types.
pub open spec fn poll_fits(n: NodeView, votes: u64) -> bool {
    has_majority(n, votes) || election_fits(n)
}

/// Whether a vote is one for this node in its term.
pub open spec fn is_vote_for(m: MessageView, n: NodeView) -> bool {
    m matches MessageView::Vote(v) && v.term == n.term && v.candidate == n.id
}

/// A candidate follows the sender of a heartbeat of its term or a later one,
/// votes in a later-term candidacy, and counts the votes for itself in its
/// term.
pub open spec fn process_msg_spec(m: MessageView, n: NodeView, votes: u64) -> Outcome {
    match m {
        MessageView::Heartbeat(h) => if h.term < n.term {
            unchanged(n, RoleView::Candidate { votes })
        } else {
            follower_of_spec(n, h)
        },
        MessageView::Candidacy(c) => if c.term <= n.term {
            unchanged(n, RoleView::Candidate { votes })
        } else {
            voter_for_spec(n, c)
        },
        MessageView::Vote(_) => if is_vote_for(m, n) {
            unchanged(n, RoleView::Candidate { votes: (votes + 1) as u64 })
        } else {
            unchanged(n, RoleView::Candidate { votes })
        },
    }
}

/// The vote count has room for the message's vote.
pub open spec fn process_msg_fits(m: MessageView, n: NodeView, votes: u64) -> bool {
    is_vote_for(m, n) ==> votes < u64::MAX
}

/// Polls the candidate; what it does is `poll_spec`.
pub fn poll(node: &mut Node, candidate: Candidate, rng: &mut StdRng) -> (r: (Role, Vec<Message>))
    requires
        old(node)@.well_formed(),
        poll_fits(old(node)@, candidate.votes),
    ensures
        has_majority(old(node)@, candidate.votes) ==> *final(rng) == *old(rng),
        exists|t: Time| #[trigger] timeout_in_range(t)
            && outcome_of(final(node)@, r) == poll_spec(old(node)@, candidate.votes, t),
{
    let necessary_votes = (node.peers.len() / 2) as u64;
    if candidate.votes > necessary_votes {
        let leader = Leader {};
        node.last_activity = node.time;
        let r = heartbeat(node, leader);
        assert(timeout_in_range(ELECTION_TIMEOUT));
        return r;
    }
    let result = poll_election_timeout(node, rng);
    let ghost t = choose|t: Time| #[trigger] timeout_in_range(t) && match result {
        Some(res) => election_timeout_spec(old(node)@, t) == Some(outcome_of(node@, res)),
        None => election_timeout_spec(old(node)@, t) is None && node@ == old(node)@,
    };
    match result {
        Some(res) => res,
        None => {
            let ghost votes = candidate.votes;
            let r = (candidate.into(), vec![]);
            assert(outcome_of(node@, r) == poll_spec(old(node)@, votes, t));
            r
        },
    }
}

/// Hands a message to the candidate; what it does is `process_msg_spec`.
pub fn process_msg(msg: Message, node: &mut Node, candidate: Candidate, _rng: &mut StdRng) -> (r: (
    Role,
    Vec<Message>,
))
    requires
        process_msg_fits(msg@, old(node)@, candidate.votes),
    ensures
        *final(_rng) == *old(_rng),
        outcome_of(final(node)@, r) == process_msg_spec(msg@, old(node)@, candidate.votes),
{
    let mut candidate = candidate;
    match msg {
        Message::Heartbeat(heartbeat) => {
            if heartbeat.term < node.term {
                return (candidate.into(), vec![]);
            }
            follower_of(node, heartbeat)
        },
        Message::Candidacy(candidacy) => {
            if candidacy.term <= node.term {
                return (candidate.into(), vec![]);
            }
            voter_for(node, candidacy)
        },
        Message::Vote(vote) => {
            let was_voted_for = vote.term == node.term && vote.candidate == node.id;
            if was_voted_for {
                candidate.votes = candidate.votes + 1;
            }
            (candidate.into(), vec![])
        },
    }
}

} // verus!
