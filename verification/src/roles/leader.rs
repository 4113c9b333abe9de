//! The leader of its term.
use vstd::prelude::*;
use rand::rngs::StdRng;
use crate::message::{Message, MessageView};
use crate::node::{Leader, Node, NodeView, Role, RoleView};
use crate::roles::actions::{follower_of, follower_of_spec, go_into_idle, heartbeat, heartbeat_spec};
use crate::roles::{outcome_of, unchanged, Outcome};
use crate::HEARTBEAT_PERIOD;

verus! {

/// Whether a heartbeat period has passed since the leader last sent one.
pub open spec fn heartbeat_due(n: NodeView) -> bool {
    n.time >= n.last_activity + HEARTBEAT_PERIOD
}

/// A leader sends a heartbeat once a heartbeat period has passed.
pub open spec fn poll_spec(n: NodeView) -> Outcome {
    if heartbeat_due(n) {
        heartbeat_spec(n)
    } else {
        unchanged(n, RoleView::Leader)
    }
}

/// The heartbeat check fits in a `Time`.
pub open spec fn poll_fits(n: NodeView) -> bool {
    n.last_activity + HEARTBEAT_PERIOD <= u64::MAX
}

/// A leader follows the sender of a later-term heartbeat, and becomes idle
/// on a heartbeat of its own term from another node; it ignores every other
/// message.
pub open spec fn process_msg_spec(m: MessageView, n: NodeView) -> Outcome {
    match m {
        MessageView::Heartbeat(h) => if h.term > n.term {
            follower_of_spec(n, h)
        } else if h.term == n.term && n.id != h.leader_id {
            unchanged(n, RoleView::Idler)
        } else {
            unchanged(n, RoleView::Leader)
        },
        _ => unchanged(n, RoleView::Leader),
    }
}

/// A leader's poll sends a heartbeat exactly when a heartbeat period has
/// passed since it was last active, and then counts as activity.
pub proof fn lemma_heartbeat_period(n: NodeView)
    ensures
        poll_spec(n).2.len() > 0 <==> n.time >= n.last_activity + HEARTBEAT_PERIOD,
        poll_spec(n).2.len() > 0 ==> poll_spec(n).0.last_activity == n.time,
{
}

/// Polls the leader; what it does is `poll_spec`.
pub fn poll(node: &mut Node, leader: Leader, _rng: &mut StdRng) -> (r: (Role, Vec<Message>))
    requires
        poll_fits(old(node)@),
    ensures
        *final(_rng) == *old(_rng),
        outcome_of(final(node)@, r) == poll_spec(old(node)@),
{
    let time_for_heartbeat = node.time >= node.last_activity + HEARTBEAT_PERIOD;
    if time_for_heartbeat {
        return heartbeat(node, leader);
    }
    (leader.into(), vec![])
}

/// Hands a message to the leader; what it does is `process_msg_spec`.
pub fn process_msg(msg: Message, node: &mut Node, leader: Leader, _rng: &mut StdRng) -> (r: (
    Role,
    Vec<Message>,
))
    ensures
        *final(_rng) == *old(_rng),
        outcome_of(final(node)@, r) == process_msg_spec(msg@, old(node)@),
{
    match msg {
        Message::Heartbeat(heartbeat) => {
            if heartbeat.term > node.term {
                return follower_of(node, heartbeat);
            }
            if heartbeat.term == node.term && node.id != heartbeat.leader_id {
                return go_into_idle();
            }
            (leader.into(), vec![])
        },
        Message::Candidacy(_) | Message::Vote(_) => (leader.into(), vec![]),
    }
}

} // verus!
