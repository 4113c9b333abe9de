//! A node that follows the leader of its term.
use vstd::prelude::*;
use rand::rngs::StdRng;
use crate::message::{IdView, Message, MessageView};
use crate::node::{Follower, Node, NodeView, Role, RoleView};
use crate::roles::actions::{
    active, election_fits, election_timeout_spec, follower_of, follower_of_spec, go_into_idle,
    poll_election_timeout, timeout_in_range, voter_for, voter_for_spec,
};
use crate::roles::{outcome_of, unchanged, Outcome};
use crate::Time;

verus! {

/// A follower stands for election once `timeout` has passed without a
/// heartbeat from its leader.
pub open spec fn poll_spec(n: NodeView, leader_id: IdView, timeout: Time) -> Outcome {
    match election_timeout_spec(n, timeout) {
        Some(o) => o,
        None => unchanged(n, RoleView::Follower { leader_id }),
    }
}

/// A follower ignores what comes from an earlier term; it follows the sender
/// of a later-term heartbeat, becomes idle where a heartbeat of its term
/// comes from another leader than its own, and counts one from its own
/// leader as activity. It votes in a later-term candidacy.
pub open spec fn process_msg_spec(m: MessageView, n: NodeView, leader_id: IdView) -> Outcome {
    match m {
        MessageView::Heartbeat(h) => if h.term < n.term {
            unchanged(n, RoleView::Follower { leader_id })
        } else if h.term > n.term {
            follower_of_spec(n, h)
        } else if h.leader_id != leader_id {
            unchanged(n, RoleView::Idler)
        } else {
            unchanged(active(n), RoleView::Follower { leader_id })
        },
        MessageView::Candidacy(c) => if c.term <= n.term {
            unchanged(n, RoleView::Follower { leader_id })
        } else {
            voter_for_spec(n, c)
        },
        MessageView::Vote(_) => unchanged(n, RoleView::Follower { leader_id }),
    }
}

/// Polls the follower; what it does is `poll_spec`.
pub fn poll(node: &mut Node, follower: Follower, rng: &mut StdRng) -> (r: (Role, Vec<Message>))
    requires
        election_fits(old(node)@),
    ensures
        exists|t: Time| #[trigger] timeout_in_range(t)
            && outcome_of(final(node)@, r) == poll_spec(old(node)@, follower.leader_id@, t),
{
    let result = poll_election_timeout(node, rng);
    let ghost t = choose|t: Time| #[trigger] timeout_in_range(t) && match result {
        Some(res) => election_timeout_spec(old(node)@, t) == Some(outcome_of(node@, res)),
        None => election_timeout_spec(old(node)@, t) is None && node@ == old(node)@,
    };
    match result {
        Some(res) => res,
        None => {
            let ghost leader_id = follower.leader_id@;
            let r = (follower.into(), vec![]);
            assert(outcome_of(node@, r) == poll_spec(old(node)@, leader_id, t));
            r
        },
    }
}

/// Hands a message to the follower; what it does is `process_msg_spec`.
pub fn process_msg(in_msg: Message, node: &mut Node, follower: Follower, _rng: &mut StdRng) -> (r: (
    Role,
    Vec<Message>,
))
    ensures
        *final(_rng) == *old(_rng),
        outcome_of(final(node)@, r) == process_msg_spec(in_msg@, old(node)@, follower.leader_id@),
{
    match in_msg {
        Message::Heartbeat(heartbeat) => {
            if heartbeat.term < node.term {
                return (follower.into(), vec![]);
            }
            if heartbeat.term > node.term {
                return follower_of(node, heartbeat);
            }
            if heartbeat.leader_id != follower.leader_id {
                return go_into_idle();
            }
            node.last_activity = node.time;
            (follower.into(), vec![])
        },
        Message::Candidacy(candidacy) => {
            if candidacy.term <= node.term {
                return (follower.into(), vec![]);
            }
            voter_for(node, candidacy)
        },
        Message::Vote(_) => (follower.into(), vec![]),
    }
}

} // verus!
