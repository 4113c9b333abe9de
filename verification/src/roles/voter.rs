//! A node that has voted in its term and waits for the winner's heartbeat.
use vstd::prelude::*;
use rand::rngs::StdRng;
use crate::message::{IdView, Message, MessageView};
use crate::node::{Node, NodeView, Role, RoleView, Voter};
use crate::roles::actions::{
    election_fits, election_timeout_spec, follower_of, follower_of_spec, poll_election_timeout,
    timeout_in_range,
};
use crate::roles::{outcome_of, unchanged, Outcome};
use crate::Time;

verus! {

/// A voter stands for election once `timeout` has passed without activity.
pub open spec fn poll_spec(n: NodeView, candidate_id: IdView, timeout: Time) -> Outcome {
    match election_timeout_spec(n, timeout) {
        Some(o) => o,
        None => unchanged(n, RoleView::Voter { candidate_id }),
    }
}

/// A voter follows the sender of a heartbeat of its term or a later one, and
/// ignores every other message.
pub open spec fn process_msg_spec(m: MessageView, n: NodeView, candidate_id: IdView) -> Outcome {
    match m {
        MessageView::Heartbeat(h) => if h.term < n.term {
            unchanged(n, RoleView::Voter { candidate_id })
        } else {
            follower_of_spec(n, h)
        },
        _ => unchanged(n, RoleView::Voter { candidate_id }),
    }
}

/// Polls the voter; what it does is `poll_spec`.
pub fn poll(node: &mut Node, voter: Voter, rng: &mut StdRng) -> (r: (Role, Vec<Message>))
    requires
        election_fits(old(node)@),
    ensures
        exists|t: Time| #[trigger] timeout_in_range(t)
            && outcome_of(final(node)@, r) == poll_spec(old(node)@, voter.candidate_id@, t),
{
    let result = poll_election_timeout(node, rng);
    let ghost t = choose|t: Time| #[trigger] timeout_in_range(t) && match result {
        Some(res) => election_timeout_spec(old(node)@, t) == Some(outcome_of(node@, res)),
        None => election_timeout_spec(old(node)@, t) is None && node@ == old(node)@,
    };
    match result {
        Some(res) => res,
        None => {
            let ghost candidate_id = voter.candidate_id@;
            let r = (voter.into(), vec![]);
            assert(outcome_of(node@, r) == poll_spec(old(node)@, candidate_id, t));
            r
        },
    }
}

/// Hands a message to the voter; what it does is `process_msg_spec`.
pub fn process_msg(in_msg: Message, node: &mut Node, voter: Voter, _rng: &mut StdRng) -> (r: (
    Role,
    Vec<Message>,
))
    ensures
        *final(_rng) == *old(_rng),
        outcome_of(final(node)@, r) == process_msg_spec(in_msg@, old(node)@, voter.candidate_id@),
{
    match in_msg {
        Message::Heartbeat(heartbeat) => {
            if heartbeat.term < node.term {
                return (voter.into(), vec![]);
            }
            follower_of(node, heartbeat)
        },
        Message::Candidacy(_) | Message::Vote(_) => (voter.into(), vec![]),
    }
}

} // verus!
