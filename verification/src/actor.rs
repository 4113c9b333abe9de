//! A node together with its role and its message queues.
use vstd::prelude::*;
use rand::rngs::StdRng;
use crate::message::{msgs_view, HeartbeatView, Message, MessageView};
use crate::node::{Node, NodeView, Role, RoleView};
use crate::roles::actions::timeout_in_range;
use crate::roles::{
    lemma_heartbeat_followed, lemma_process_msg_term,
    lemma_fits_no_wrap, lemma_poll_keeps, lemma_process_msg_keeps, poll_draws, poll_fits,
    poll_starts_election, poll_spec, process_msg_fits, process_msg_spec,
    unchanged, Outcome,
};
use crate::{Error, Term, Time, ELECTION_TIMEOUT};

verus! {

/// A node of the cluster: its state and role, the messages it has received
/// and not read yet, and those it has sent and that are not delivered yet.
#[derive(Debug, Clone, PartialEq, Eq)]
pub struct Actor {
    pub node: Node,
    pub role: Role,
    pub inbox: Vec<Message>,
    pub outbox: Vec<Message>,
}

pub struct ActorView {
    pub node: NodeView,
    pub role: RoleView,
    pub inbox: Seq<MessageView>,
    pub outbox: Seq<MessageView>,
}

impl View for Actor {
    type V = ActorView;

    open spec fn view(&self) -> ActorView {
        ActorView {
            node: self.node@,
            role: self.role@,
            inbox: msgs_view(self.inbox@),
            outbox: msgs_view(self.outbox@),
        }
    }
}

/// The node after its clock has advanced by one.
pub open spec fn tick(n: NodeView) -> NodeView {
    NodeView { time: (n.time + 1) as u64, ..n }
}

/// What taking the messages `msgs` one after the other does, from role `r`:
/// the node, the role and everything sent, in order.
pub open spec fn deliver_spec(n: NodeView, r: RoleView, msgs: Seq<MessageView>) -> Outcome
    decreases msgs.len(),
{
    if msgs.len() == 0 {
        unchanged(n, r)
    } else {
        let first = process_msg_spec(msgs[0], n, r);
        let rest = deliver_spec(first.0, first.1, msgs.drop_first());
        (rest.0, rest.1, first.2 + rest.2)
    }
}

/// The numbers of taking the messages `msgs` fit in their types.
pub open spec fn deliver_fits(n: NodeView, r: RoleView, msgs: Seq<MessageView>) -> bool
    decreases msgs.len(),
{
    msgs.len() == 0 || {
        let first = process_msg_spec(msgs[0], n, r);
        process_msg_fits(msgs[0], n, r) && deliver_fits(first.0, first.1, msgs.drop_first())
    }
}

impl ActorView {
    /// The node after its clock advanced and it read its inbox.
    pub open spec fn after_inbox(self) -> Outcome {
        deliver_spec(tick(self.node), self.role, self.inbox)
    }

    /// The numbers of a poll fit in their types, whatever timeout is drawn.
    pub open spec fn poll_fits(self) -> bool {
        &&& self.node.time < u64::MAX
        &&& deliver_fits(tick(self.node), self.role, self.inbox)
        &&& poll_fits(self.after_inbox().0, self.after_inbox().1)
    }

    /// A poll: the clock advances by one, the node reads its inbox in order,
    /// then polls its role with the election timeout `timeout`; what it sends
    /// is appended to its outbox.
    pub open spec fn poll_spec(self, timeout: Time) -> ActorView {
        let read = self.after_inbox();
        let polled = poll_spec(read.0, read.1, timeout);
        ActorView {
            node: polled.0,
            role: polled.1,
            inbox: Seq::empty(),
            outbox: self.outbox + read.2 + polled.2,
        }
    }
}

/// Reading messages in order keeps the node's name, clock and peers, never
/// lowers its term, never puts its last activity ahead of its clock, and
/// stamps all it sends with its name and a term no later than the one it
/// holds at the end.
pub proof fn lemma_deliver_keeps(n: NodeView, r: RoleView, msgs: Seq<MessageView>)
    ensures
        ({
            let o = deliver_spec(n, r, msgs);
            &&& o.0.id == n.id
            &&& o.0.time == n.time
            &&& o.0.peers == n.peers
            &&& o.0.term >= n.term
            &&& o.0.last_activity == n.last_activity || o.0.last_activity == n.time
            &&& n.last_activity <= n.time ==> o.0.last_activity <= o.0.time
            &&& forall|i: int| 0 <= i < o.2.len() ==> (#[trigger] o.2[i]).sender() == n.id
                && n.term <= o.2[i].term() <= o.0.term
        }),
    decreases msgs.len(),
{
    if msgs.len() > 0 {
        let first = process_msg_spec(msgs[0], n, r);
        lemma_process_msg_keeps(msgs[0], n, r);
        lemma_deliver_keeps(first.0, first.1, msgs.drop_first());
        let rest = deliver_spec(first.0, first.1, msgs.drop_first());
        let o = deliver_spec(n, r, msgs);
        assert forall|i: int| 0 <= i < o.2.len() implies (#[trigger] o.2[i]).sender() == n.id
            && n.term <= o.2[i].term() <= o.0.term by {
            if i < first.2.len() {
                assert(o.2[i] == first.2[i]);
            } else {
                assert(o.2[i] == rest.2[i - first.2.len()]);
            }
        }
    }
}

/// Reading one more message after `msgs` is reading `msgs` and then that
/// message in the role and state they left.
pub proof fn lemma_deliver_push(n: NodeView, r: RoleView, msgs: Seq<MessageView>, m: MessageView)
    ensures
        ({
            let d = deliver_spec(n, r, msgs);
            let o = process_msg_spec(m, d.0, d.1);
            deliver_spec(n, r, msgs.push(m)) == (o.0, o.1, d.2 + o.2)
        }),
    decreases msgs.len(),
{
    if msgs.len() == 0 {
        assert(msgs.push(m).drop_first() =~= Seq::<MessageView>::empty());
        assert(msgs.push(m)[0] == m);
        let o = process_msg_spec(m, n, r);
        assert(deliver_spec(o.0, o.1, Seq::<MessageView>::empty()) == unchanged(o.0, o.1));
        assert(o.2 + Seq::<MessageView>::empty() =~= o.2);
        assert(Seq::<MessageView>::empty() + o.2 =~= o.2);
        assert(deliver_spec(n, r, msgs) == unchanged(n, r));
    } else {
        let first = process_msg_spec(msgs[0], n, r);
        assert(msgs.push(m)[0] == msgs[0]);
        assert(msgs.push(m).drop_first() =~= msgs.drop_first().push(m));
        lemma_deliver_push(first.0, first.1, msgs.drop_first(), m);
        let d = deliver_spec(first.0, first.1, msgs.drop_first());
        let o = process_msg_spec(m, d.0, d.1);
        assert(first.2 + (d.2 + o.2) =~= (first.2 + d.2) + o.2);
    }
}

/// Reading messages whose terms are all below `h`, from a term below `h`,
/// leaves the node in a term below `h`.
pub proof fn lemma_deliver_term_below(n: NodeView, r: RoleView, msgs: Seq<MessageView>, h: Term)
    requires
        n.term < h,
        forall|i: int| 0 <= i < msgs.len() ==> (#[trigger] msgs[i]).term() < h,
    ensures
        deliver_spec(n, r, msgs).0.term < h,
    decreases msgs.len(),
{
    if msgs.len() > 0 {
        let first = process_msg_spec(msgs[0], n, r);
        lemma_process_msg_term(msgs[0], n, r);
        assert(msgs[0].term() < h);
        let rest = msgs.drop_first();
        assert forall|i: int| 0 <= i < rest.len() implies (#[trigger] rest[i]).term() < h by {
            assert(rest[i] == msgs[i + 1]);
        }
        lemma_deliver_term_below(first.0, first.1, rest, h);
    }
}

/// After reading its messages the node's term is at least that of every
/// heartbeat among them, whatever its role: no role ignores a heartbeat
/// from a later term.
pub proof fn lemma_deliver_heeds_heartbeats(n: NodeView, r: RoleView, msgs: Seq<MessageView>)
    ensures
        forall|i: int| 0 <= i < msgs.len() && #[trigger] msgs[i] is Heartbeat ==> deliver_spec(n, r, msgs).0.term
            >= msgs[i].term(),
    decreases msgs.len(),
{
    if msgs.len() > 0 {
        let first = process_msg_spec(msgs[0], n, r);
        let rest = msgs.drop_first();
        lemma_deliver_heeds_heartbeats(first.0, first.1, rest);
        lemma_deliver_keeps(first.0, first.1, rest);
        if let MessageView::Heartbeat(h) = msgs[0] {
            if h.term > n.term {
                lemma_heartbeat_followed(h, n, r);
            }
        }
        lemma_process_msg_keeps(msgs[0], n, r);
        assert forall|i: int| 0 <= i < msgs.len() && #[trigger] msgs[i] is Heartbeat implies deliver_spec(n, r, msgs).0.term
            >= msgs[i].term() by {
            if i > 0 {
                assert(msgs[i] == rest[i - 1]);
            }
        }
    }
}

/// After a poll the node's term is at least that of every heartbeat that
/// was in its inbox, whatever its role: a leader, too, reads its inbox.
pub proof fn lemma_poll_heeds_heartbeats(a: ActorView, timeout: Time)
    requires
        a.node.time < u64::MAX,
        poll_starts_election(a.after_inbox().0, a.after_inbox().1, timeout) ==> a.after_inbox().0.term
            < u64::MAX,
    ensures
        forall|i: int| 0 <= i < a.inbox.len() && #[trigger] a.inbox[i] is Heartbeat ==> a.poll_spec(timeout).node.term
            >= a.inbox[i].term(),
{
    let read = a.after_inbox();
    lemma_deliver_heeds_heartbeats(tick(a.node), a.role, a.inbox);
    lemma_poll_keeps(read.0, read.1, timeout);
}

/// Where the last message of the inbox is a heartbeat from a term later
/// than the node's and than every other message's, the poll ends with the
/// node, whatever its role, following that heartbeat's sender in its term,
/// having been active at the new clock, whatever timeout it drew.
pub proof fn lemma_poll_follows_latest_heartbeat(a: ActorView, h: HeartbeatView, timeout: Time)
    requires
        a.node.time < u64::MAX,
        timeout_in_range(timeout),
        a.inbox.len() > 0,
        a.inbox.last() == MessageView::Heartbeat(h),
        h.term > a.node.term,
        forall|i: int| 0 <= i < a.inbox.len() - 1 ==> (#[trigger] a.inbox[i]).term() < h.term,
    ensures
        a.poll_spec(timeout).role == (RoleView::Follower { leader_id: h.leader_id }),
        a.poll_spec(timeout).node.term == h.term,
        a.poll_spec(timeout).node.last_activity == a.node.time + 1,
        a.poll_spec(timeout).node.time == a.node.time + 1,
{
    let prefix = a.inbox.drop_last();
    assert(prefix.push(MessageView::Heartbeat(h)) =~= a.inbox);
    assert forall|i: int| 0 <= i < prefix.len() implies (#[trigger] prefix[i]).term() < h.term by {
        assert(prefix[i] == a.inbox[i]);
    }
    lemma_deliver_push(tick(a.node), a.role, prefix, MessageView::Heartbeat(h));
    lemma_deliver_term_below(tick(a.node), a.role, prefix, h.term);
    lemma_deliver_keeps(tick(a.node), a.role, prefix);
    let d = deliver_spec(tick(a.node), a.role, prefix);
    lemma_heartbeat_followed(h, d.0, d.1);
}

/// A poll advances the clock by one, keeps the node's name and peers, never
/// lowers its term, keeps its last activity or sets it to the new clock (so
/// never ahead of the clock where it was not before), empties the inbox and
/// only appends to the outbox; everything it appends carries the node's name
/// and a term between its terms before and after the poll. It holds
/// wherever the clock and, when the poll starts an election, the term have a
/// next value.
pub proof fn lemma_poll_keeps_actor(a: ActorView, timeout: Time)
    requires
        a.node.time < u64::MAX,
        poll_starts_election(a.after_inbox().0, a.after_inbox().1, timeout) ==> a.after_inbox().0.term
            < u64::MAX,
    ensures
        ({
            let b = a.poll_spec(timeout);
            &&& b.node.id == a.node.id
            &&& b.node.time == a.node.time + 1
            &&& b.node.peers == a.node.peers
            &&& b.node.term >= a.node.term
            &&& b.node.last_activity == a.node.last_activity || b.node.last_activity == b.node.time
            &&& a.node.last_activity <= a.node.time ==> b.node.last_activity <= b.node.time
            &&& b.inbox.len() == 0
            &&& b.outbox.len() >= a.outbox.len()
            &&& b.outbox.subrange(0, a.outbox.len() as int) == a.outbox
            &&& forall|i: int| a.outbox.len() <= i < b.outbox.len() ==> (#[trigger] b.outbox[i]).sender()
                == a.node.id && a.node.term <= b.outbox[i].term() <= b.node.term
        }),
{
    let read = a.after_inbox();
    lemma_deliver_keeps(tick(a.node), a.role, a.inbox);
    lemma_poll_keeps(read.0, read.1, timeout);
    let polled = poll_spec(read.0, read.1, timeout);
    let b = a.poll_spec(timeout);
    assert(b.outbox.subrange(0, a.outbox.len() as int) =~= a.outbox);
    assert forall|i: int| a.outbox.len() <= i < b.outbox.len() implies (#[trigger] b.outbox[i]).sender()
        == a.node.id && a.node.term <= b.outbox[i].term() <= b.node.term by {
        let j = i - a.outbox.len();
        if j < read.2.len() {
            assert(b.outbox[i] == read.2[j]);
        } else {
            assert(b.outbox[i] == polled.2[j - read.2.len()]);
        }
    }
}

/// Bounds under which no number of a poll can overflow: the clock and the
/// last activity stay a double election timeout below the largest `Time`,
/// no term is the largest `Term`, and a candidate's count has room for a
/// vote per message.
pub open spec fn in_bounds(n: NodeView, r: RoleView, msgs: Seq<MessageView>) -> bool {
    &&& n.time + 2 * ELECTION_TIMEOUT <= u64::MAX
    &&& n.last_activity + 2 * ELECTION_TIMEOUT <= u64::MAX
    &&& n.term < u64::MAX
    &&& forall|i: int| 0 <= i < msgs.len() ==> (#[trigger] msgs[i]).term() < u64::MAX
    &&& r matches RoleView::Candidate { votes } ==> votes + msgs.len() < u64::MAX
}

/// Within the bounds, reading the messages and then polling fit in their types.
pub proof fn lemma_in_bounds_fits(n: NodeView, r: RoleView, msgs: Seq<MessageView>)
    requires
        in_bounds(n, r, msgs),
    ensures
        deliver_fits(n, r, msgs),
        poll_fits(deliver_spec(n, r, msgs).0, deliver_spec(n, r, msgs).1),
    decreases msgs.len(),
{
    if msgs.len() > 0 {
        let first = process_msg_spec(msgs[0], n, r);
        let rest = msgs.drop_first();
        assert(msgs[0].term() < u64::MAX);
        assert forall|i: int| 0 <= i < rest.len() implies (#[trigger] rest[i]).term() < u64::MAX by {
            assert(rest[i] == msgs[i + 1]);
        }
        lemma_in_bounds_fits(first.0, first.1, rest);
    }
}

impl ActorView {
    /// The bounds of `in_bounds` for the poll of this actor.
    pub open spec fn within_limits(self) -> bool {
        self.node.time < u64::MAX && in_bounds(tick(self.node), self.role, self.inbox)
    }
}

/// Within its limits, an actor can be polled.
pub proof fn lemma_within_limits_fits(a: ActorView)
    requires
        a.within_limits(),
    ensures
        a.poll_fits(),
{
    lemma_in_bounds_fits(tick(a.node), a.role, a.inbox);
}

impl Actor {
    /// Whether the actor is within the limits under which a poll cannot
    /// overflow.
    pub fn within_limits(&self) -> (b: bool)
        ensures
            b == self@.within_limits(),
            b ==> self@.poll_fits(),
    {
        let limit: u64 = u64::MAX - 2 * ELECTION_TIMEOUT;
        if self.node.time >= limit || self.node.last_activity > limit || self.node.term == u64::MAX {
            return false;
        }
        let mut i: usize = 0;
        while i < self.inbox.len()
            invariant
                i <= self.inbox@.len(),
                forall|k: int| 0 <= k < i ==> (#[trigger] self@.inbox[k]).term() < u64::MAX,
            decreases self.inbox@.len() - i,
        {
            let term = match &self.inbox[i] {
                Message::Heartbeat(h) => h.term,
                Message::Candidacy(c) => c.term,
                Message::Vote(v) => v.term,
            };
            if term == u64::MAX {
                assert(self@.inbox[i as int].term() == u64::MAX);
                return false;
            }
            i = i + 1;
        }
        let ok = match &self.role {
            Role::Candidate(c) => c.votes < u64::MAX && (self.inbox.len() as u64) < u64::MAX - c.votes,
            _ => true,
        };
        proof {
            if ok {
                lemma_within_limits_fits(self@);
            }
        }
        ok
    }

    /// An actor with empty queues.
    pub fn new(node: Node, role: Role) -> (a: Actor)
        ensures
            a.node == node,
            a.role == role,
            a.inbox@.len() == 0,
            a.outbox@.len() == 0,
    {
        Actor { node, role, inbox: vec![], outbox: vec![] }
    }

    /// Advances the clock, reads every message of the inbox in order, then
    /// polls the role, drawing an election timeout from `rng` where the role
    /// needs one. What the node sends goes to the end of the outbox.
    pub fn poll(&mut self, rng: &mut StdRng) -> (r: Result<(), Error>)
        requires
            old(self)@.node.well_formed(),
            old(self)@.poll_fits(),
        ensures
            r is Ok,
            !poll_draws(old(self)@.after_inbox().0, old(self)@.after_inbox().1) ==> *final(rng) == *old(rng),
            exists|t: Time| #[trigger] timeout_in_range(t) && final(self)@ == old(self)@.poll_spec(t),
            final(self)@.node.id == old(self)@.node.id,
            final(self)@.node.peers == old(self)@.node.peers,
            final(self)@.node.time == old(self)@.node.time + 1,
            final(self)@.node.term >= old(self)@.node.term,
            final(self)@.node.last_activity == old(self)@.node.last_activity
                || final(self)@.node.last_activity == final(self)@.node.time,
    {
        self.node.time = self.node.time + 1;
        let mut in_msgs: Vec<Message> = Vec::new();
        std::mem::swap(&mut in_msgs, &mut self.inbox);
        let ghost start = old(self)@;
        let ghost total = start.after_inbox();
        proof {
            assert(msgs_view(in_msgs@) == start.inbox);
            assert(msgs_view(self.outbox@) =~= start.outbox + Seq::<MessageView>::empty());
        }
        while in_msgs.len() > 0
            invariant
                deliver_fits(self.node@, self.role@, msgs_view(in_msgs@)),
                ({
                    let rest = deliver_spec(self.node@, self.role@, msgs_view(in_msgs@));
                    &&& rest.0 == total.0
                    &&& rest.1 == total.1
                    &&& start.outbox + total.2 == msgs_view(self.outbox@) + rest.2
                }),
                self.inbox@.len() == 0,
                *rng == *old(rng),
                self@.node.peers == old(self)@.node.peers,
            decreases in_msgs.len(),
        {
            let ghost msgs_before = msgs_view(in_msgs@);
            let ghost outbox_before = msgs_view(self.outbox@);
            let in_msg = in_msgs.remove(0);
            proof {
                assert(msgs_view(in_msgs@) =~= msgs_before.drop_first());
            }
            let mut role = Role::Idler;
            std::mem::swap(&mut role, &mut self.role);
            let (new_role, mut out_msgs) = crate::roles::process_msg(in_msg, &mut self.node, role, rng);
            self.role = new_role;
            let ghost sent = msgs_view(out_msgs@);
            self.outbox.append(&mut out_msgs);
            proof {
                assert(msgs_view(self.outbox@) =~= outbox_before + sent);
                assert((outbox_before + sent) + deliver_spec(self.node@, self.role@, msgs_view(in_msgs@)).2
                    =~= outbox_before + (sent + deliver_spec(self.node@, self.role@, msgs_view(in_msgs@)).2));
            }
        }
        let mut role = Role::Idler;
        std::mem::swap(&mut role, &mut self.role);
        let ghost read_outbox = msgs_view(self.outbox@);
        let (new_role, mut out_msgs) = crate::roles::poll(&mut self.node, role, rng);
        self.role = new_role;
        let ghost sent = msgs_view(out_msgs@);
        self.outbox.append(&mut out_msgs);
        proof {
            assert(msgs_view(self.outbox@) =~= read_outbox + sent);
            assert(msgs_view(self.inbox@) =~= Seq::<MessageView>::empty());
            let t = choose|t: Time| #[trigger] timeout_in_range(t) && self@ == start.poll_spec(t);
            lemma_fits_no_wrap(total.0, total.1, t);
            lemma_poll_keeps_actor(start, t);
        }
        Ok(())
    }
}

} // verus!
