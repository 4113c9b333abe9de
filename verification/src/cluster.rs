//! A cluster of actors that poll in turn and hear one another's messages.
use vstd::prelude::*;
use vstd::string::StringExecFns;
use rand::rngs::StdRng;
use crate::actor::{Actor, ActorView};
use crate::message::{ids_view, msgs_view, IdView, Message, MessageView};
use crate::node::{Node, NodeView, Role, RoleView};
use crate::roles::actions::{gen_range, timeout_in_range};
use crate::roles::poll_draws;
use crate::text::{decimal, decimal_string};
use crate::{Id, Time};

verus! {

/// The name of the `i`-th node of a cluster.
pub open spec fn id_text(i: nat) -> IdView {
    "node."@ + decimal(i)
}

/// The name of the `i`-th node of a cluster: `node.` and `i` in decimal.
pub fn id(i: u64) -> (s: Id)
    ensures
        s@ == id_text(i as nat),
{
    let mut s = "node.".to_owned();
    s.append(decimal_string(i).as_str());
    s
}

/// The names of the first `count` nodes of a cluster.
pub open spec fn cluster_ids(count: nat) -> Seq<IdView> {
    Seq::new(count, |i: int| id_text(i as nat))
}

/// The nodes of a cluster have distinct names.
pub proof fn lemma_cluster_ids_distinct(count: nat)
    ensures
        cluster_ids(count).no_duplicates(),
{
    assert forall|i: int, j: int| 0 <= i < count && 0 <= j < count && i != j implies cluster_ids(count)[i]
        != cluster_ids(count)[j] by {
        if id_text(i as nat) == id_text(j as nat) {
            let p = "node."@;
            assert(decimal(i as nat) =~= id_text(i as nat).subrange(p.len() as int, id_text(i as nat).len() as int));
            assert(decimal(j as nat) =~= id_text(j as nat).subrange(p.len() as int, id_text(j as nat).len() as int));
            crate::text::lemma_decimal_injective(i as nat, j as nat);
        }
    }
}

/// A fresh node, idle, with its clock, last activity and term at zero.
pub open spec fn fresh_actor(id: IdView, peers: Seq<IdView>) -> ActorView {
    ActorView {
        node: NodeView { id, time: 0, last_activity: 0, term: 0, peers },
        role: RoleView::Idler,
        inbox: Seq::empty(),
        outbox: Seq::empty(),
    }
}

/// A fresh actor for the node `id` in a cluster of `peers`.
pub fn new_actor(id: Id, peers: Vec<Id>) -> (a: Actor)
    ensures
        a@ == fresh_actor(id@, ids_view(peers@)),
{
    let a = Actor::new(Node { id, time: 0, last_activity: 0, term: 0, peers }, Role::Idler);
    assert(a@.inbox =~= Seq::<MessageView>::empty());
    assert(a@.outbox =~= Seq::<MessageView>::empty());
    a
}

/// The names of the first `count` nodes of a cluster, in order.
pub fn cluster_id_list(count: u64) -> (ids: Vec<Id>)
    ensures
        ids_view(ids@) == cluster_ids(count as nat),
{
    let mut ids: Vec<Id> = Vec::new();
    let mut i: u64 = 0;
    while i < count
        invariant
            i <= count,
            ids_view(ids@) =~= cluster_ids(i as nat),
        decreases count - i,
    {
        let name = id(i);
        let ghost before = ids@;
        ids.push(name);
        proof {
            assert(ids@ == before.push(name));
            assert(ids_view(ids@) =~= ids_view(before).push(name@));
            assert(cluster_ids((i + 1) as nat) =~= cluster_ids(i as nat).push(id_text(i as nat)));
        }
        i = i + 1;
    }
    ids
}

/// A cluster of `count` fresh actors, each with every node as a peer; no
/// name is listed twice.
pub fn new_cluster(count: u64) -> (actors: Vec<Actor>)
    ensures
        actors@.len() == count,
        cluster_ids(count as nat).no_duplicates(),
        forall|i: int| 0 <= i < count ==> (#[trigger] actors@[i])@.node.well_formed(),
        forall|i: int| 0 <= i < count ==> (#[trigger] actors@[i])@ == fresh_actor(id_text(i as nat), cluster_ids(count as nat)),
{
    let ids = cluster_id_list(count);
    proof {
        lemma_cluster_ids_distinct(count as nat);
    }
    let mut actors: Vec<Actor> = Vec::new();
    let mut i: u64 = 0;
    while i < count
        invariant
            i <= count,
            ids_view(ids@) == cluster_ids(count as nat),
            actors@.len() == i,
            forall|k: int| 0 <= k < i ==> (#[trigger] actors@[k])@ == fresh_actor(id_text(k as nat), cluster_ids(count as nat)),
        decreases count - i,
    {
        let actor = new_actor(id(i), crate::message::clone_ids(&ids));
        actors.push(actor);
        i = i + 1;
    }
    actors
}

/// The views of the actors of a cluster.
pub open spec fn actors_view(actors: Seq<Actor>) -> Seq<ActorView> {
    actors.map_values(|a: Actor| a@)
}

/// `after` is `before` with each actor polled once, the `i`-th with the
/// election timeout `timeouts[i]`.
pub open spec fn polled_with(before: Seq<ActorView>, after: Seq<ActorView>, timeouts: Seq<Time>) -> bool {
    &&& after.len() == before.len()
    &&& timeouts.len() == before.len()
    &&& forall|i: int| 0 <= i < timeouts.len() ==> timeout_in_range(#[trigger] timeouts[i])
        && after[i] == before[i].poll_spec(timeouts[i])
}

/// What actor `j` hears from the outboxes of the first `k` actors: their
/// messages, by sender and then in the order sent, its own left out.
pub open spec fn heard(actors: Seq<ActorView>, j: int, k: int) -> Seq<MessageView>
    decreases k,
{
    if k <= 0 {
        Seq::empty()
    } else {
        heard(actors, j, k - 1) + if k - 1 == j {
            Seq::empty()
        } else {
            actors[k - 1].outbox
        }
    }
}

/// The cluster after every outbox was delivered to every other actor: each
/// actor's inbox gains what it heard, and every outbox is empty.
pub open spec fn delivered(actors: Seq<ActorView>) -> Seq<ActorView> {
    Seq::new(
        actors.len(),
        |j: int|
            ActorView {
                inbox: actors[j].inbox + heard(actors, j, actors.len() as int),
                outbox: Seq::empty(),
                ..actors[j]
            },
    )
}

/// What actor `j` hears from the first `k` actors holds every message those
/// other than `j` sent, and has as many messages as they sent in all.
proof fn lemma_heard_holds(actors: Seq<ActorView>, j: int, k: int)
    requires
        0 <= k <= actors.len(),
    ensures
        forall|i: int, p: int| 0 <= i < k && i != j && 0 <= p < actors[i].outbox.len() ==> heard(actors, j, k).contains(
            #[trigger] actors[i].outbox[p]),
    decreases k,
{
    if k > 0 {
        lemma_heard_holds(actors, j, k - 1);
        let prev = heard(actors, j, k - 1);
        let last: Seq<MessageView> = if k - 1 == j { Seq::empty() } else { actors[k - 1].outbox };
        assert(heard(actors, j, k) == prev + last);
        assert forall|i: int, p: int| 0 <= i < k && i != j && 0 <= p < actors[i].outbox.len() implies heard(
            actors,
            j,
            k,
        ).contains(#[trigger] actors[i].outbox[p]) by {
            if i < k - 1 {
                let q = choose|q: int| 0 <= q < prev.len() && prev[q] == actors[i].outbox[p];
                assert((prev + last)[q] == actors[i].outbox[p]);
            } else {
                assert((prev + last)[prev.len() + p] == actors[i].outbox[p]);
            }
        }
    }
}

/// Delivery keeps every actor's state and the messages already in its
/// inbox, in front; every message that another actor sent is then in its
/// inbox; and every outbox is empty.
pub proof fn lemma_delivery_reaches_others(actors: Seq<ActorView>)
    ensures
        delivered(actors).len() == actors.len(),
        forall|j: int| 0 <= j < actors.len() ==> {
            let d = #[trigger] delivered(actors)[j];
            &&& d.node == actors[j].node
            &&& d.role == actors[j].role
            &&& d.outbox.len() == 0
            &&& d.inbox.subrange(0, actors[j].inbox.len() as int) == actors[j].inbox
        },
        forall|j: int, i: int, p: int|
            0 <= j < actors.len() && 0 <= i < actors.len() && i != j && 0 <= p < actors[i].outbox.len()
                ==> #[trigger] delivered(actors)[j].inbox.contains(#[trigger] actors[i].outbox[p]),
{
    assert forall|j: int| 0 <= j < actors.len() implies {
        let d = #[trigger] delivered(actors)[j];
        &&& d.node == actors[j].node
        &&& d.role == actors[j].role
        &&& d.outbox.len() == 0
        &&& d.inbox.subrange(0, actors[j].inbox.len() as int) == actors[j].inbox
    } by {
        assert(delivered(actors)[j].inbox.subrange(0, actors[j].inbox.len() as int) =~= actors[j].inbox);
    }
    assert forall|j: int, i: int, p: int|
        0 <= j < actors.len() && 0 <= i < actors.len() && i != j && 0 <= p < actors[i].outbox.len()
            implies #[trigger] delivered(actors)[j].inbox.contains(#[trigger] actors[i].outbox[p]) by {
        lemma_heard_holds(actors, j, actors.len() as int);
        let h = heard(actors, j, actors.len() as int);
        let q = choose|q: int| 0 <= q < h.len() && h[q] == actors[i].outbox[p];
        assert((actors[j].inbox + h)[actors[j].inbox.len() + q] == actors[i].outbox[p]);
    }
}

/// Actor `a` is actor `b` with only its queues changed.
pub open spec fn same_state(a: ActorView, b: ActorView) -> bool {
    a.node == b.node && a.role == b.role
}

/// Delivers the messages in every outbox to every other actor's inbox,
/// sender by sender and in the order sent, and empties the outboxes.
pub fn deliver_outboxes(actors: &mut Vec<Actor>)
    ensures
        actors_view(final(actors)@) =~= delivered(actors_view(old(actors)@)),
{
    let ghost start = actors_view(actors@);
    let n = actors.len();
    let mut i: usize = 0;
    while i < n
        invariant
            n == start.len(),
            i <= n,
            actors@.len() == n,
            forall|j: int| 0 <= j < n ==> {
                let a = #[trigger] actors@[j]@;
                &&& same_state(a, start[j])
                &&& a.outbox == if j < i { Seq::empty() } else { start[j].outbox }
                &&& a.inbox == start[j].inbox + heard(start, j, i as int)
            },
        decreases n - i,
    {
        let mut out: Vec<Message> = Vec::new();
        let ghost before = actors@[i as int];
        assert(before@.outbox == start[i as int].outbox);
        std::mem::swap(&mut out, &mut actors[i].outbox);
        proof {
            assert(out@ == before.outbox@);
            assert(actors@[i as int].outbox@.len() == 0);
            assert(msgs_view(out@) == start[i as int].outbox);
        }
        let mut k: usize = 0;
        while k < out.len()
            invariant
                n == start.len(),
                i < n,
                k <= out.len(),
                actors@.len() == n,
                msgs_view(out@) == start[i as int].outbox,
                forall|j: int| 0 <= j < n ==> {
                    let a = #[trigger] actors@[j]@;
                    &&& same_state(a, start[j])
                    &&& a.outbox == if j <= i { Seq::empty() } else { start[j].outbox }
                    &&& a.inbox == start[j].inbox + heard(start, j, i as int) + if j == i {
                        Seq::empty()
                    } else {
                        msgs_view(out@).take(k as int)
                    }
                },
            decreases out.len() - k,
        {
            let mut j: usize = 0;
            while j < n
                invariant
                    n == start.len(),
                    i < n,
                    k < out.len(),
                    j <= n,
                    actors@.len() == n,
                    msgs_view(out@) == start[i as int].outbox,
                    forall|l: int| 0 <= l < n ==> {
                        let a = #[trigger] actors@[l]@;
                        &&& same_state(a, start[l])
                        &&& a.outbox == if l <= i { Seq::empty() } else { start[l].outbox }
                        &&& a.inbox == start[l].inbox + heard(start, l, i as int) + if l == i {
                            Seq::empty()
                        } else if l < j {
                            msgs_view(out@).take(k + 1)
                        } else {
                            msgs_view(out@).take(k as int)
                        }
                    },
                decreases n - j,
            {
                if j != i {
                    let m = out[k].duplicate();
                    let ghost before = actors@[j as int]@;
                    actors[j].inbox.push(m);
                    proof {
                        let after = actors@[j as int]@;
                        assert(msgs_view(out@).take(k + 1) =~= msgs_view(out@).take(k as int).push(m@));
                        assert(after.inbox =~= before.inbox.push(m@));
                    }
                }
                j = j + 1;
            }
            k = k + 1;
        }
        proof {
            assert(msgs_view(out@).take(out.len() as int) =~= msgs_view(out@));
            assert forall|j: int| 0 <= j < n implies heard(start, j, (i + 1) as int) == heard(start, j, i as int)
                + if j == i { Seq::<MessageView>::empty() } else { start[i as int].outbox } by {
            }
        }
        i = i + 1;
    }
}

/// Replaces actor `l` by a fresh one, named after its place and with every
/// node of the cluster as a peer; returns the actor it replaced.
pub fn reset_actor(actors: &mut Vec<Actor>, l: usize) -> (replaced: Actor)
    requires
        l < old(actors)@.len(),
    ensures
        final(actors)@.len() == old(actors)@.len(),
        final(actors)@[l as int]@ == fresh_actor(id_text(l as nat), cluster_ids(old(actors)@.len())),
        forall|k: int| 0 <= k < old(actors)@.len() && k != l ==> #[trigger] final(actors)@[k] == old(actors)@[k],
        replaced == old(actors)@[l as int],
{
    let count = actors.len() as u64;
    let mut fresh = new_actor(id(l as u64), cluster_id_list(count));
    std::mem::swap(&mut fresh, &mut actors[l]);
    fresh
}

/// Resets an actor chosen at random with `rng`: returns its place and the
/// actor it replaced.
pub fn reset_random_actor(actors: &mut Vec<Actor>, rng: &mut StdRng) -> (r: (usize, Actor))
    requires
        old(actors)@.len() > 0,
    ensures
        r.0 < old(actors)@.len(),
        final(actors)@.len() == old(actors)@.len(),
        final(actors)@[r.0 as int]@ == fresh_actor(id_text(r.0 as nat), cluster_ids(old(actors)@.len())),
        forall|k: int| 0 <= k < old(actors)@.len() && k != r.0 ==> #[trigger] final(actors)@[k] == old(actors)@[k],
        r.1 == old(actors)@[r.0 as int],
{
    let l = gen_range(rng, 0, actors.len() as u64) as usize;
    let replaced = reset_actor(actors, l);
    (l, replaced)
}

/// Whether an actor's poll draws an election timeout.
pub open spec fn draws_timeout(a: ActorView) -> bool {
    poll_draws(a.after_inbox().0, a.after_inbox().1)
}

/// Polls every actor of the cluster once, in order.
pub fn poll_all(actors: &mut Vec<Actor>, rng: &mut StdRng)
    requires
        forall|i: int| 0 <= i < old(actors)@.len() ==> (#[trigger] old(actors)@[i])@.poll_fits(),
        forall|i: int| 0 <= i < old(actors)@.len() ==> (#[trigger] old(actors)@[i])@.node.well_formed(),
    ensures
        exists|timeouts: Seq<Time>| #[trigger] polled_with(actors_view(old(actors)@), actors_view(final(actors)@), timeouts),
        (forall|i: int| 0 <= i < old(actors)@.len() ==> !#[trigger] draws_timeout(old(actors)@[i]@))
            ==> *final(rng) == *old(rng),
{
    let ghost start = actors@;
    let ghost mut timeouts: Seq<Time> = Seq::empty();
    let n = actors.len();
    let mut i: usize = 0;
    while i < n
        invariant
            n == start.len(),
            i <= n,
            actors@.len() == n,
            timeouts.len() == i,
            forall|k: int| i <= k < n ==> (#[trigger] actors@[k]) == start[k],
            forall|k: int| i <= k < n ==> (#[trigger] start[k])@.poll_fits(),
            forall|k: int| i <= k < n ==> (#[trigger] start[k])@.node.well_formed(),
            forall|k: int| 0 <= k < i ==> timeout_in_range(#[trigger] timeouts[k])
                && actors@[k]@ == start[k]@.poll_spec(timeouts[k]),
            (forall|k: int| 0 <= k < i ==> !#[trigger] draws_timeout(start[k]@)) ==> *rng == *old(rng),
        decreases n - i,
    {
        let ghost rng_before = *rng;
        assert(actors@[i as int] == start[i as int]);
        let _ = actors[i].poll(rng);
        proof {
            assert(!draws_timeout(start[i as int]@) ==> *rng == rng_before);
            if forall|k: int| 0 <= k < i + 1 ==> !#[trigger] draws_timeout(start[k]@) {
                assert(!draws_timeout(start[i as int]@));
                assert forall|k: int| 0 <= k < i implies !#[trigger] draws_timeout(start[k]@) by {
                    assert(0 <= k < i + 1);
                }
            }
            let t = choose|t: Time| #[trigger] timeout_in_range(t) && actors@[i as int]@ == start[i as int]@.poll_spec(t);
            timeouts = timeouts.push(t);
        }
        i = i + 1;
    }
    assert(polled_with(actors_view(start), actors_view(actors@), timeouts));
}

} // verus!
