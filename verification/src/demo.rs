//! A small stand-alone election among numbered nodes, simulated tick by
//! tick: followers wait for heartbeats and echo candidacies, candidates count
//! votes, and leaders send heartbeats.
use vstd::prelude::*;
use rand::rngs::StdRng;
use crate::roles::actions::gen_range;

verus! {

/// The simulation's settings.
#[derive(Debug, Clone, Copy, PartialEq, Eq, Structural)]
pub struct Settings {
    /// How long to wait for a master's heartbeat before starting an election.
    pub election_timeout: u64,
}

/// What a node of the simulation is doing.
#[derive(Debug, Clone, Copy, PartialEq, Eq, Structural)]
pub enum State {
    Follower { last_recv_heartbeat: u64, round: u64, voted: Option<u64> },
    Candidate { round: u64, votes: u64 },
    Leader { last_sent_heartbeat: u64, round: u64 },
}

#[derive(Debug, Clone, Copy, PartialEq, Eq, Structural)]
pub struct Node {
    pub state: State,
}

#[derive(Debug, Clone, Copy, PartialEq, Eq, Structural)]
pub struct Message {
    pub variant: MessageVariant,
}

#[derive(Debug, Clone, Copy, PartialEq, Eq, Structural)]
pub enum MessageVariant {
    /// A heartbeat from the leader with this number.
    Heartbeat(u64),
    /// The vote of node `by` for node `for_`.
    Vote { for_: u64, by: u64 },
}

/// The contents of the inboxes.
pub open spec fn boxes_view(inboxes: Seq<Vec<Message>>) -> Seq<Seq<Message>> {
    inboxes.map_values(|b: Vec<Message>| b@)
}

/// Every inbox but that of node `from` gains the messages `msgs` at its end.
pub open spec fn send(boxes: Seq<Seq<Message>>, from: int, msgs: Seq<Message>) -> Seq<Seq<Message>> {
    Seq::new(boxes.len(), |k: int| if k == from { boxes[k] } else { boxes[k] + msgs })
}

/// Appends `msg` to the inbox of every node but `from`.
fn broadcast(inboxes: &mut Vec<Vec<Message>>, from: usize, msg: Message)
    ensures
        final(inboxes)@.len() == old(inboxes)@.len(),
        boxes_view(final(inboxes)@) =~= send(boxes_view(old(inboxes)@), from as int, seq![msg]),
{
    let ghost start = boxes_view(inboxes@);
    let n = inboxes.len();
    let mut k: usize = 0;
    while k < n
        invariant
            n == start.len(),
            inboxes@.len() == n,
            k <= n,
            forall|l: int| 0 <= l < n ==> (#[trigger] inboxes@[l])@ == if l < k && l != from {
                start[l] + seq![msg]
            } else {
                start[l]
            },
        decreases n - k,
    {
        if k != from {
            let ghost before = inboxes@[k as int]@;
            inboxes[k].push(msg);
            assert(inboxes@[k as int]@ =~= before + seq![msg]);
        }
        k = k + 1;
    }
}

/// Sending `x` and then `y` is sending `x + y`.
proof fn lemma_send_twice(boxes: Seq<Seq<Message>>, from: int, x: Seq<Message>, y: Seq<Message>)
    ensures
        send(send(boxes, from, x), from, y) =~= send(boxes, from, x + y),
{
    assert forall|k: int| 0 <= k < boxes.len() && k != from implies (send(send(boxes, from, x), from, y))[k]
        =~= boxes[k] + (x + y) by {
        assert(boxes[k] + x + y =~= boxes[k] + (x + y));
    }
}

/// The vote a node sends for itself, or echoes for another.
pub open spec fn vote(for_: u64, by: u64) -> Message {
    Message { variant: MessageVariant::Vote { for_, by } }
}

/// The echo that follower `j` sends for a message: each self-vote is echoed
/// while the follower has voted for nobody.
pub open spec fn echo(m: Message, j: u64, voted: Option<u64>) -> Seq<Message> {
    match m.variant {
        MessageVariant::Vote { for_, by } => if for_ == by && voted is None {
            seq![vote(for_, j)]
        } else {
            Seq::empty()
        },
        _ => Seq::empty(),
    }
}

/// The echoes that follower `j` sends for the messages of its inbox, in order.
pub open spec fn echoes(inbox: Seq<Message>, j: u64, voted: Option<u64>) -> Seq<Message>
    decreases inbox.len(),
{
    if inbox.len() == 0 {
        Seq::empty()
    } else {
        echoes(inbox.drop_last(), j, voted) + echo(inbox.last(), j, voted)
    }
}

/// A tick of follower `j` with the election timeout `timeout`: every message
/// counts as a heartbeat; self-votes are echoed; the inbox is emptied; and
/// once the timeout has passed since the last heartbeat the follower stands
/// for election in the next round.
pub open spec fn follower_step(
    boxes: Seq<Seq<Message>>,
    j: int,
    last_recv_heartbeat: u64,
    round: u64,
    voted: Option<u64>,
    tick: u64,
    timeout: u64,
) -> (State, Seq<Seq<Message>>) {
    let inbox = boxes[j];
    let heard = if inbox.len() > 0 { tick } else { last_recv_heartbeat };
    let echoed = send(boxes, j, echoes(inbox, j as u64, voted)).update(j, Seq::empty());
    if heard + timeout < tick {
        (State::Candidate { round: (round + 1) as u64, votes: 1 }, send(echoed, j, seq![vote(j as u64, j as u64)]))
    } else {
        (State::Follower { last_recv_heartbeat: heard, round, voted }, echoed)
    }
}

/// Whether a message is a node's vote for itself.
pub open spec fn is_self_vote(m: Message) -> bool {
    m.variant matches MessageVariant::Vote { for_, by } && for_ == by
}

/// A follower echoes one vote for each self-vote it reads, while it has
/// voted for nobody, and nothing else.
proof fn lemma_echo_count(inbox: Seq<Message>, j: u64, voted: Option<u64>)
    ensures
        echoes(inbox, j, voted).len() == if voted is None {
            inbox.filter(|m: Message| is_self_vote(m)).len()
        } else {
            0
        },
    decreases inbox.len(),
{
    reveal(Seq::filter);
    let pred = |m: Message| is_self_vote(m);
    if inbox.len() > 0 {
        lemma_echo_count(inbox.drop_last(), j, voted);
        let sub = inbox.drop_last().filter(pred);
        assert(inbox.filter(pred) == if pred(inbox.last()) { sub.push(inbox.last()) } else { sub });
        assert(echo(inbox.last(), j, voted).len() == if voted is None && pred(inbox.last()) { 1int } else { 0int });
    }
}

/// A follower that finds a message in its inbox at a tick counts it as a
/// heartbeat at that tick and stays a follower whatever its timeout; it
/// empties its inbox, and every other inbox gains one echo for each
/// self-vote it read while it had voted for nobody, and no vote of its own.
pub proof fn lemma_heard_follower_stays(
    boxes: Seq<Seq<Message>>,
    j: int,
    last_recv_heartbeat: u64,
    round: u64,
    voted: Option<u64>,
    tick: u64,
    timeout: u64,
)
    requires
        0 <= j < boxes.len(),
        boxes[j].len() > 0,
    ensures
        ({
            let o = follower_step(boxes, j, last_recv_heartbeat, round, voted, tick, timeout);
            &&& o.0 == State::Follower { last_recv_heartbeat: tick, round, voted }
            &&& o.1.len() == boxes.len()
            &&& o.1[j].len() == 0
            &&& forall|k: int| 0 <= k < boxes.len() && k != j ==> (#[trigger] o.1[k]).len() == boxes[k].len() + if voted
                is None {
                boxes[j].filter(|m: Message| is_self_vote(m)).len()
            } else {
                0
            }
        }),
{
    lemma_echo_count(boxes[j], j as u64, voted);
}

/// A candidate with more than half of the votes, `2 * votes > node_count`,
/// becomes the leader at this tick and leaves every inbox as it is; one
/// without reads only its own inbox, and stays a candidate of its round
/// with its votes or one more, or follows at this tick.
pub proof fn lemma_demo_candidate(boxes: Seq<Seq<Message>>, j: int, round: u64, votes: u64, tick: u64, node_count: u64)
    requires
        0 <= j < boxes.len(),
    ensures
        2 * votes > node_count ==> candidate_step(boxes, j, round, votes, tick, node_count) == (
            State::Leader { last_sent_heartbeat: 0, round: tick },
            boxes,
        ),
        2 * votes <= node_count ==> ({
            let o = candidate_step(boxes, j, round, votes, tick, node_count);
            &&& o.1.len() == boxes.len()
            &&& forall|k: int| 0 <= k < boxes.len() && k != j ==> #[trigger] o.1[k] == boxes[k]
            &&& o.1[j].len() <= boxes[j].len()
            &&& o.0 == (State::Candidate { round, votes }) || o.0 == (State::Candidate {
                round,
                votes: (votes + 1) as u64,
            }) || o.0 == (State::Follower { last_recv_heartbeat: tick, round: tick, voted: None })
        }),
{
    if 2 * votes <= node_count {
        lemma_scan_outcome(boxes[j], j as u64, round, votes, tick);
    }
}

proof fn lemma_scan_outcome(inbox: Seq<Message>, j: u64, round: u64, votes: u64, tick: u64)
    ensures
        ({
            let o = candidate_scan(inbox, j, round, votes, tick);
            &&& o.1.len() <= inbox.len()
            &&& o.0 == (State::Candidate { round, votes }) || o.0 == (State::Candidate {
                round,
                votes: (votes + 1) as u64,
            }) || o.0 == (State::Follower { last_recv_heartbeat: tick, round: tick, voted: None })
        }),
    decreases inbox.len(),
{
    if inbox.len() > 0 {
        lemma_scan_outcome(inbox.drop_first(), j, round, votes, tick);
    }
}

/// A leader keeps its state; once half an election timeout has passed since
/// `last_sent_heartbeat` every other inbox gains exactly its heartbeat at
/// the end, and otherwise no inbox changes.
pub proof fn lemma_demo_leader(
    boxes: Seq<Seq<Message>>,
    j: int,
    last_sent_heartbeat: u64,
    round: u64,
    tick: u64,
    election_timeout: u64,
)
    requires
        0 <= j < boxes.len(),
    ensures
        ({
            let o = leader_step(boxes, j, last_sent_heartbeat, round, tick, election_timeout);
            &&& o.0 == (State::Leader { last_sent_heartbeat, round })
            &&& o.1.len() == boxes.len()
            &&& o.1[j] == boxes[j]
            &&& forall|k: int| 0 <= k < boxes.len() && k != j ==> #[trigger] o.1[k] == if last_sent_heartbeat
                + election_timeout / 2 < tick {
                boxes[k].push(Message { variant: MessageVariant::Heartbeat(j as u64) })
            } else {
                boxes[k]
            }
        }),
{
    let o = leader_step(boxes, j, last_sent_heartbeat, round, tick, election_timeout);
    assert forall|k: int| 0 <= k < boxes.len() && k != j implies #[trigger] o.1[k] == if last_sent_heartbeat
        + election_timeout / 2 < tick {
        boxes[k].push(Message { variant: MessageVariant::Heartbeat(j as u64) })
    } else {
        boxes[k]
    } by {
        assert(boxes[k] + seq![Message { variant: MessageVariant::Heartbeat(j as u64) }] =~= boxes[k].push(
            Message { variant: MessageVariant::Heartbeat(j as u64) },
        ));
    }
}

/// The numbers of a follower's tick fit in their types, for every timeout
/// below `2 * election_timeout`.
pub open spec fn follower_fits(last_recv_heartbeat: u64, round: u64, tick: u64, election_timeout: u64) -> bool {
    &&& last_recv_heartbeat + 2 * election_timeout <= u64::MAX + 1
    &&& tick + 2 * election_timeout <= u64::MAX + 1
    &&& tick > last_recv_heartbeat + election_timeout ==> round < u64::MAX
}

fn follower_tick(
    inboxes: &mut Vec<Vec<Message>>,
    j: usize,
    last_recv_heartbeat: u64,
    round: u64,
    voted: Option<u64>,
    tick: u64,
    timeout: u64,
) -> (s: State)
    requires
        j < old(inboxes)@.len(),
        last_recv_heartbeat + timeout <= u64::MAX,
        tick + timeout <= u64::MAX,
        tick > last_recv_heartbeat + timeout ==> round < u64::MAX,
    ensures
        final(inboxes)@.len() == old(inboxes)@.len(),
        (s, boxes_view(final(inboxes)@)) == follower_step(
            boxes_view(old(inboxes)@),
            j as int,
            last_recv_heartbeat,
            round,
            voted,
            tick,
            timeout,
        ),
{
    let ghost start = boxes_view(inboxes@);
    let ghost inbox = start[j as int];
    let mut last = last_recv_heartbeat;
    let n_msgs = inboxes[j].len();
    let mut p: usize = 0;
    proof {
        assert(inbox.take(0) =~= Seq::<Message>::empty());
        assert(send(start, j as int, Seq::empty()) =~= start);
    }
    while p < n_msgs
        invariant
            j < inboxes@.len(),
            start.len() == inboxes@.len(),
            n_msgs == inbox.len(),
            inbox == start[j as int],
            p <= n_msgs,
            boxes_view(inboxes@) == send(start, j as int, echoes(inbox.take(p as int), j as u64, voted)),
            last == if p > 0 { tick } else { last_recv_heartbeat },
        decreases n_msgs - p,
    {
        proof {
            assert(boxes_view(inboxes@)[j as int] == inbox);
        }
        let msg = inboxes[j][p];
        proof {
            assert(inbox.take(p + 1).drop_last() =~= inbox.take(p as int));
            assert(inbox.take(p + 1).last() == msg);
        }
        match msg.variant {
            MessageVariant::Heartbeat(_) => {
                last = tick;
            },
            MessageVariant::Vote { for_, by } => {
                last = tick;
                if for_ == by && voted.is_none() {
                    let echo_msg = Message { variant: MessageVariant::Vote { for_, by: j as u64 } };
                    broadcast(inboxes, j, echo_msg);
                    proof {
                        lemma_send_twice(start, j as int, echoes(inbox.take(p as int), j as u64, voted), seq![echo_msg]);
                    }
                }
            },
        }
        p = p + 1;
    }
    proof {
        assert(inbox.take(n_msgs as int) =~= inbox);
    }
    inboxes[j] = Vec::new();
    proof {
        assert(boxes_view(inboxes@) =~= send(start, j as int, echoes(inbox, j as u64, voted)).update(j as int, Seq::empty()));
    }
    if last + timeout < tick {
        broadcast(inboxes, j, Message { variant: MessageVariant::Vote { for_: j as u64, by: j as u64 } });
        State::Candidate { round: round + 1, votes: 1 }
    } else {
        State::Follower { last_recv_heartbeat: last, round, voted }
    }
}

/// A candidate without a majority reads its inbox from the front until a
/// heartbeat, which makes it follow, or a vote for it, which it counts; the
/// messages before that one, and that one, are gone from its inbox.
pub open spec fn candidate_scan(inbox: Seq<Message>, j: u64, round: u64, votes: u64, tick: u64) -> (
    State,
    Seq<Message>,
)
    decreases inbox.len(),
{
    if inbox.len() == 0 {
        (State::Candidate { round, votes }, inbox)
    } else {
        match inbox[0].variant {
            MessageVariant::Heartbeat(_) => (
                State::Follower { last_recv_heartbeat: tick, round: tick, voted: None },
                inbox.drop_first(),
            ),
            MessageVariant::Vote { for_, by } => if for_ == j {
                (State::Candidate { round, votes: (votes + 1) as u64 }, inbox.drop_first())
            } else {
                candidate_scan(inbox.drop_first(), j, round, votes, tick)
            },
        }
    }
}

/// A tick of candidate `j` in a simulation of `node_count` nodes: with more
/// than half of the votes it leads from this tick on; otherwise it scans its
/// inbox.
pub open spec fn candidate_step(
    boxes: Seq<Seq<Message>>,
    j: int,
    round: u64,
    votes: u64,
    tick: u64,
    node_count: u64,
) -> (State, Seq<Seq<Message>>) {
    if votes > node_count / 2 {
        (State::Leader { last_sent_heartbeat: 0, round: tick }, boxes)
    } else {
        let scanned = candidate_scan(boxes[j], j as u64, round, votes, tick);
        (scanned.0, boxes.update(j, scanned.1))
    }
}

fn candidate_tick(inboxes: &mut Vec<Vec<Message>>, j: usize, round: u64, votes: u64, tick: u64, node_count: u64) -> (s: State)
    requires
        j < old(inboxes)@.len(),
        votes > node_count / 2 || votes < u64::MAX,
    ensures
        final(inboxes)@.len() == old(inboxes)@.len(),
        (s, boxes_view(final(inboxes)@)) == candidate_step(boxes_view(old(inboxes)@), j as int, round, votes, tick, node_count),
{
    if votes > node_count / 2 {
        return State::Leader { last_sent_heartbeat: 0, round: tick };
    }
    let ghost start = boxes_view(inboxes@);
    let ghost goal = candidate_scan(start[j as int], j as u64, round, votes, tick);
    let mut s = State::Candidate { round, votes };
    let inbox_count = inboxes[j].len();
    let mut c: usize = 0;
    let mut stopped = false;
    while c < inbox_count && !stopped
        invariant
            j < inboxes@.len(),
            start.len() == inboxes@.len(),
            votes < u64::MAX,
            c <= inbox_count,
            stopped ==> (s, boxes_view(inboxes@)[j as int]) == goal,
            !stopped ==> candidate_scan(boxes_view(inboxes@)[j as int], j as u64, round, votes, tick) == goal
                && s == (State::Candidate { round, votes })
                && boxes_view(inboxes@)[j as int].len() == inbox_count - c,
            forall|k: int| 0 <= k < start.len() && k != j ==> (#[trigger] boxes_view(inboxes@)[k]) == start[k],
        decreases inbox_count - c,
    {
        let ghost before = boxes_view(inboxes@)[j as int];
        let ghost all_before = inboxes@;
        let msg = inboxes[j].remove(0);
        proof {
            assert(boxes_view(inboxes@)[j as int] =~= before.drop_first());
            assert forall|k: int| 0 <= k < start.len() && k != j implies (#[trigger] boxes_view(inboxes@)[k]) == start[k] by {
                assert(inboxes@[k] == all_before[k]);
                assert(boxes_view(all_before)[k] == start[k]);
            }
        }
        match msg.variant {
            MessageVariant::Heartbeat(_) => {
                s = State::Follower { last_recv_heartbeat: tick, round: tick, voted: None };
                stopped = true;
            },
            MessageVariant::Vote { for_, by } => {
                if j as u64 == for_ {
                    s = State::Candidate { round, votes: votes + 1 };
                    stopped = true;
                }
            },
        }
        c = c + 1;
    }
    proof {
        if !stopped {
            assert(boxes_view(inboxes@)[j as int].len() == 0);
        }
        assert(boxes_view(inboxes@) =~= start.update(j as int, goal.1));
    }
    s
}

/// A tick of leader `j`: it sends a heartbeat to every other node once half
/// an election timeout has passed since `last_sent_heartbeat`.
pub open spec fn leader_step(
    boxes: Seq<Seq<Message>>,
    j: int,
    last_sent_heartbeat: u64,
    round: u64,
    tick: u64,
    election_timeout: u64,
) -> (State, Seq<Seq<Message>>) {
    let s = State::Leader { last_sent_heartbeat, round };
    if last_sent_heartbeat + election_timeout / 2 < tick {
        (s, send(boxes, j, seq![Message { variant: MessageVariant::Heartbeat(j as u64) }]))
    } else {
        (s, boxes)
    }
}

fn leader_tick(
    inboxes: &mut Vec<Vec<Message>>,
    j: usize,
    last_sent_heartbeat: u64,
    round: u64,
    tick: u64,
    election_timeout: u64,
) -> (s: State)
    requires
        j < old(inboxes)@.len(),
        last_sent_heartbeat + election_timeout / 2 <= u64::MAX,
    ensures
        final(inboxes)@.len() == old(inboxes)@.len(),
        (s, boxes_view(final(inboxes)@)) == leader_step(
            boxes_view(old(inboxes)@),
            j as int,
            last_sent_heartbeat,
            round,
            tick,
            election_timeout,
        ),
{
    if last_sent_heartbeat + election_timeout / 2 < tick {
        broadcast(inboxes, j, Message { variant: MessageVariant::Heartbeat(j as u64) });
    }
    State::Leader { last_sent_heartbeat, round }
}

/// A tick of node `j`, where a follower's election timeout is `timeout`.
pub open spec fn step_spec(
    nodes: Seq<Node>,
    boxes: Seq<Seq<Message>>,
    j: int,
    tick: u64,
    election_timeout: u64,
    node_count: u64,
    timeout: u64,
) -> (State, Seq<Seq<Message>>) {
    match nodes[j].state {
        State::Follower { last_recv_heartbeat, round, voted } => follower_step(
            boxes,
            j,
            last_recv_heartbeat,
            round,
            voted,
            tick,
            timeout,
        ),
        State::Candidate { round, votes } => candidate_step(boxes, j, round, votes, tick, node_count),
        State::Leader { last_sent_heartbeat, round } => leader_step(
            boxes,
            j,
            last_sent_heartbeat,
            round,
            tick,
            election_timeout,
        ),
    }
}

/// The numbers of a node's tick fit in their types.
pub open spec fn step_fits(node: Node, tick: u64, election_timeout: u64, node_count: u64) -> bool {
    match node.state {
        State::Follower { last_recv_heartbeat, round, .. } => follower_fits(
            last_recv_heartbeat,
            round,
            tick,
            election_timeout,
        ),
        State::Candidate { votes, .. } => votes > node_count / 2 || votes < u64::MAX,
        State::Leader { last_sent_heartbeat, .. } => last_sent_heartbeat + election_timeout / 2 <= u64::MAX,
    }
}

/// The first `k` nodes tick in order, node `j` with the timeout `timeouts[j]`.
pub open spec fn run_spec(
    nodes: Seq<Node>,
    boxes: Seq<Seq<Message>>,
    k: nat,
    tick: u64,
    election_timeout: u64,
    timeouts: Seq<u64>,
) -> (Seq<Node>, Seq<Seq<Message>>)
    decreases k,
{
    if k == 0 {
        (nodes, boxes)
    } else {
        let prev = run_spec(nodes, boxes, (k - 1) as nat, tick, election_timeout, timeouts);
        let step = step_spec(
            prev.0,
            prev.1,
            k - 1,
            tick,
            election_timeout,
            nodes.len() as u64,
            timeouts[k - 1],
        );
        (prev.0.update(k - 1, Node { state: step.0 }), step.1)
    }
}

/// The state every node is reset to at the hundredth tick.
pub open spec fn reset_state(tick: u64, election_timeout: u64) -> State {
    State::Follower { last_recv_heartbeat: (tick - election_timeout) as u64, round: tick, voted: None }
}

/// A whole tick: every node ticks in order; at the hundredth tick the first
/// three nodes are then reset to followers.
pub open spec fn tick_spec(
    nodes: Seq<Node>,
    boxes: Seq<Seq<Message>>,
    tick: u64,
    election_timeout: u64,
    timeouts: Seq<u64>,
) -> (Seq<Node>, Seq<Seq<Message>>) {
    let ran = run_spec(nodes, boxes, nodes.len(), tick, election_timeout, timeouts);
    if tick == 100 {
        let reset = Node { state: reset_state(tick, election_timeout) };
        (ran.0.update(0, reset).update(1, reset).update(2, reset), ran.1)
    } else {
        ran
    }
}

/// The numbers of a whole tick fit in their types, whatever timeouts are
/// drawn, and there are three nodes to reset at the hundredth tick.
pub open spec fn tick_fits(nodes: Seq<Node>, boxes: Seq<Seq<Message>>, tick: u64, election_timeout: u64) -> bool {
    &&& boxes.len() == nodes.len()
    &&& 1 <= election_timeout
    &&& 2 * election_timeout <= u64::MAX
    &&& forall|j: int| 0 <= j < nodes.len() ==> step_fits(#[trigger] nodes[j], tick, election_timeout, nodes.len() as u64)
    &&& tick == 100 ==> election_timeout <= tick && nodes.len() >= 3
}

/// The timeouts that a follower draws from.
pub open spec fn timeouts_in_range(timeouts: Seq<u64>, election_timeout: u64) -> bool {
    forall|j: int| 0 <= j < timeouts.len() ==> election_timeout <= #[trigger] timeouts[j] < 2 * election_timeout
}

proof fn lemma_run_len(
    nodes: Seq<Node>,
    boxes: Seq<Seq<Message>>,
    k: nat,
    tick: u64,
    election_timeout: u64,
    timeouts: Seq<u64>,
)
    requires
        k <= nodes.len(),
    ensures
        run_spec(nodes, boxes, k, tick, election_timeout, timeouts).0.len() == nodes.len(),
    decreases k,
{
    if k > 0 {
        lemma_run_len(nodes, boxes, (k - 1) as nat, tick, election_timeout, timeouts);
    }
}

/// At the hundredth tick the first three nodes end as followers of round
/// 100 that last heard a heartbeat an election timeout earlier and have
/// voted for nobody, whatever they did in the tick.
pub proof fn lemma_demo_reset(nodes: Seq<Node>, boxes: Seq<Seq<Message>>, election_timeout: u64, timeouts: Seq<u64>)
    requires
        nodes.len() >= 3,
        election_timeout <= 100,
    ensures
        tick_spec(nodes, boxes, 100, election_timeout, timeouts).0.len() == nodes.len(),
        forall|k: int| 0 <= k < 3 ==> #[trigger] tick_spec(nodes, boxes, 100, election_timeout, timeouts).0[k] == (Node {
            state: State::Follower { last_recv_heartbeat: (100 - election_timeout) as u64, round: 100, voted: None },
        }),
{
    lemma_run_len(nodes, boxes, nodes.len(), 100, election_timeout, timeouts);
}

/// Whether a tick can run: `tick_fits`.
pub fn tick_fits_now(nodes: &Vec<Node>, inboxes: &Vec<Vec<Message>>, tick: u64, election_timeout: u64) -> (b: bool)
    ensures
        b == tick_fits(nodes@, boxes_view(inboxes@), tick, election_timeout),
{
    if inboxes.len() != nodes.len() || election_timeout == 0 || election_timeout > u64::MAX / 2 {
        return false;
    }
    if tick == 100 && (election_timeout > tick || nodes.len() < 3) {
        return false;
    }
    let node_count = nodes.len() as u64;
    let mut j: usize = 0;
    while j < nodes.len()
        invariant
            j <= nodes@.len(),
            node_count == nodes@.len(),
            1 <= election_timeout,
            2 * election_timeout <= u64::MAX,
            forall|k: int| 0 <= k < j ==> step_fits(#[trigger] nodes@[k], tick, election_timeout, node_count),
        decreases nodes@.len() - j,
    {
        let fits = match nodes[j].state {
            State::Follower { last_recv_heartbeat, round, .. } => {
                let span = 2 * election_timeout;
                last_recv_heartbeat <= u64::MAX - span + 1 && tick <= u64::MAX - span + 1 && (tick
                    <= last_recv_heartbeat + election_timeout || round < u64::MAX)
            },
            State::Candidate { votes, .. } => votes > node_count / 2 || votes < u64::MAX,
            State::Leader { last_sent_heartbeat, .. } => last_sent_heartbeat <= u64::MAX - election_timeout / 2,
        };
        if !fits {
            return false;
        }
        j = j + 1;
    }
    true
}

/// Runs one tick of the simulation, where the follower at index `j` waits
/// `timeouts[j]` for a heartbeat.
pub fn tick_with(
    nodes: &mut Vec<Node>,
    inboxes: &mut Vec<Vec<Message>>,
    tick: u64,
    election_timeout: u64,
    timeouts: &Vec<u64>,
)
    requires
        tick_fits(old(nodes)@, boxes_view(old(inboxes)@), tick, election_timeout),
        timeouts@.len() == old(nodes)@.len(),
        timeouts_in_range(timeouts@, election_timeout),
    ensures
        (final(nodes)@, boxes_view(final(inboxes)@)) == tick_spec(
            old(nodes)@,
            boxes_view(old(inboxes)@),
            tick,
            election_timeout,
            timeouts@,
        ),
{
    let ghost start = nodes@;
    let ghost start_boxes = boxes_view(inboxes@);
    let node_count = nodes.len() as u64;
    let n = nodes.len();
    let mut j: usize = 0;
    while j < n
        invariant
            n == start.len(),
            node_count == n,
            nodes@.len() == n,
            inboxes@.len() == n,
            j <= n,
            timeouts@.len() == n,
            timeouts_in_range(timeouts@, election_timeout),
            1 <= election_timeout,
            2 * election_timeout <= u64::MAX,
            forall|k: int| 0 <= k < n ==> step_fits(#[trigger] start[k], tick, election_timeout, n as u64),
            (nodes@, boxes_view(inboxes@)) == run_spec(start, start_boxes, j as nat, tick, election_timeout, timeouts@),
            forall|k: int| j <= k < n ==> #[trigger] nodes@[k] == start[k],
        decreases n - j,
    {
        assert(step_fits(start[j as int], tick, election_timeout, n as u64));
        let timeout = timeouts[j];
        let state = match nodes[j].state {
            State::Follower { last_recv_heartbeat, round, voted } => follower_tick(
                inboxes,
                j,
                last_recv_heartbeat,
                round,
                voted,
                tick,
                timeout,
            ),
            State::Candidate { round, votes } => candidate_tick(inboxes, j, round, votes, tick, node_count),
            State::Leader { last_sent_heartbeat, round } => leader_tick(
                inboxes,
                j,
                last_sent_heartbeat,
                round,
                tick,
                election_timeout,
            ),
        };
        nodes[j] = Node { state };
        j = j + 1;
    }
    if tick == 100 {
        let reset = Node { state: State::Follower { last_recv_heartbeat: tick - election_timeout, round: tick, voted: None } };
        nodes[0] = reset;
        nodes[1] = reset;
        nodes[2] = reset;
    }
}

/// Runs one tick of the simulation, each follower drawing its election
/// timeout from `rng` in `[election_timeout, 2 * election_timeout)`.
pub fn run_tick(
    nodes: &mut Vec<Node>,
    inboxes: &mut Vec<Vec<Message>>,
    tick: u64,
    election_timeout: u64,
    rng: &mut StdRng,
)
    requires
        tick_fits(old(nodes)@, boxes_view(old(inboxes)@), tick, election_timeout),
    ensures
        exists|timeouts: Seq<u64>| #[trigger] timeouts_in_range(timeouts, election_timeout)
            && timeouts.len() == old(nodes)@.len()
            && (final(nodes)@, boxes_view(final(inboxes)@)) == tick_spec(
                old(nodes)@,
                boxes_view(old(inboxes)@),
                tick,
                election_timeout,
                timeouts,
            ),
        (forall|j: int| 0 <= j < old(nodes)@.len() ==> (#[trigger] old(nodes)@[j]).state !is Follower)
            ==> *final(rng) == *old(rng),
{
    let mut timeouts: Vec<u64> = Vec::new();
    let n = nodes.len();
    let mut j: usize = 0;
    while j < n
        invariant
            n == nodes@.len(),
            j <= n,
            timeouts@.len() == j,
            1 <= election_timeout,
            2 * election_timeout <= u64::MAX,
            timeouts_in_range(timeouts@, election_timeout),
            (forall|k: int| 0 <= k < j ==> (#[trigger] nodes@[k]).state !is Follower) ==> *rng == *old(rng),
        decreases n - j,
    {
        let timeout = match nodes[j].state {
            State::Follower { .. } => gen_range(rng, election_timeout, election_timeout * 2),
            _ => election_timeout,
        };
        timeouts.push(timeout);
        j = j + 1;
    }
    tick_with(nodes, inboxes, tick, election_timeout, &timeouts);
}

} // verus!
