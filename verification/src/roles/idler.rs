//! A node that waits for a leader or a candidate.
use vstd::prelude::*;
use rand::rngs::StdRng;
use crate::message::{Message, MessageView};
use crate::node::{Node, NodeView, Role, RoleView};
use crate::roles::actions::{
    election_fits, election_timeout_spec, follower_of, follower_of_spec, poll_election_timeout,
    timeout_in_range, voter_for, voter_for_spec,
};
use crate::roles::{outcome_of, unchanged, Outcome};
use crate::Time;

verus! {

/// An idler stands for election once `timeout` has passed without activity.
pub open spec fn poll_spec(n: NodeView, timeout: Time) -> Outcome {
    match election_timeout_spec(n, timeout) {
        Some(o) => o,
        None => unchanged(n, RoleView::Idler),
    }
}

/// An idler follows the sender of a heartbeat, and votes for the sender of a
/// candidacy, of its term or a later one.
pub open spec fn process_msg_spec(m: MessageView, n: NodeView) -> Outcome {
    match m {
        MessageView::Heartbeat(h) => if h.term < n.term {
            unchanged(n, RoleView::Idler)
        } else {
            follower_of_spec(n, h)
        },
        MessageView::Candidacy(c) => if c.term < n.term {
            unchanged(n, RoleView::Idler)
        } else {
            voter_for_spec(n, c)
        },
        MessageView::Vote(_) => unchanged(n, RoleView::Idler),
    }
}

/// Polls the idler; what it does is `poll_spec`.
pub fn poll(node: &mut Node, rng: &mut StdRng) -> (r: (Role, Vec<Message>))
    requires
        election_fits(old(node)@),
    ensures
        exists|t: Time| #[trigger] timeout_in_range(t) && outcome_of(final(node)@, r) == poll_spec(old(node)@, t),
{
    let result = poll_election_timeout(node, rng);
    let ghost t = choose|t: Time| #[trigger] timeout_in_range(t) && match result {
        Some(res) => election_timeout_spec(old(node)@, t) == Some(outcome_of(node@, res)),
        None => election_timeout_spec(old(node)@, t) is None && node@ == old(node)@,
    };
    match result {
        Some(res) => res,
        None => {
            let out: Vec<Message> = vec![];
            assert(outcome_of(node@, (Role::Idler, out)) == poll_spec(old(node)@, t));
            (Role::Idler, out)
        },
    }
}

/// Hands a message to the idler; what it does is `process_msg_spec`.
pub fn process_msg(in_msg: Message, node: &mut Node, _rng: &mut StdRng) -> (r: (Role, Vec<Message>))
    ensures
        *final(_rng) == *old(_rng),
        outcome_of(final(node)@, r) == process_msg_spec(in_msg@, old(node)@),
{
    match in_msg {
        Message::Heartbeat(heartbeat) => {
            if heartbeat.term < node.term {
                return (Role::Idler, vec![]);
            }
            follower_of(node, heartbeat)
        },
        Message::Candidacy(candidacy) => {
            if candidacy.term < node.term {
                return (Role::Idler, vec![]);
            }
            voter_for(node, candidacy)
        },
        Message::Vote(_) => (Role::Idler, vec![]),
    }
}

} // verus!
