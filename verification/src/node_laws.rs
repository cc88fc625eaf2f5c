//! What the nodes of a cluster owe each other: membership, placement and admission, each
//! law stated on the members, the capacities and the messages themselves.

use crate::backend::{BackendAgent, SpawnError};
use crate::backends;
use crate::backends::{Backend, BackendRow, BackendTable, Candidate};
use crate::bid::{bid_for, solicit_one, Bid, BidProto, Solicit};
use crate::capacity::{score, BidSpec, CapacitySnapshot, CapacitySource, Score};
use crate::config::BackendConfig;
use crate::identity::{
    key_file, load_or_generate, malformed_message, node_id, KeyFile, KeyRead, KeyStep,
};
use crate::ids;
use crate::ids::EndpointId;
use crate::link;
use crate::link::{ClusterNode, NodeKind, PeerPhase, PeerStep};
use crate::membership;
use crate::membership::{since, Member, MemberRole, Membership};
use crate::registry::SandboxRegistry;
use crate::roster;
use crate::roster::{EndpointAddr, Entry, Roster};
use crate::table;
use crate::table::Key;
use crate::wire;
use crate::wire::Control;
use vstd::prelude::*;
use vstd::string::*;

verus! {

// ---- membership ----

/// Ages count from when something happened; what lies ahead has no age.
pub proof fn law_age_is_time_passed(now: u64, then: u64, d: u64)
    requires
        call_ensures(since, (now, then), d),
    ensures
        now >= then ==> d == now - then,
        now < then ==> d == 0,
        membership::elapsed(now, then) == d,
{
}

/// A node starts knowing nobody, and remembers the unconnected for a minute.
pub proof fn law_new_view_is_empty(id: EndpointId, role: MemberRole, m: Membership)
    requires
        call_ensures(Membership::new, (id, role), m),
    ensures
        m.self_id == id,
        m.self_role == role,
        m.ttl == 60_000_000_000,
        forall|x: EndpointId| !m@.contains_key(x),
{
}

/// Whoever is announced is heard of: after a merge every announced member but the node
/// itself is in the view, last heard of now, known before or not; its role is the one
/// last announced; and whether it is connected is as before.
pub proof fn law_announced_members_are_heard_of(
    m: Map<EndpointId, Member>,
    me: EndpointId,
    es: Seq<(EndpointId, MemberRole)>,
    now: u64,
    i: int,
)
    requires
        0 <= i < es.len(),
        es[i].0 != me,
    ensures
        membership::merged(m, me, es, now).contains_key(es[i].0),
        membership::merged(m, me, es, now)[es[i].0].last_heard == now,
        (forall|j: int| i < j < es.len() ==> (#[trigger] es[j]).0 != es[i].0)
            ==> membership::merged(m, me, es, now)[es[i].0].role == es[i].1,
        membership::merged(m, me, es, now)[es[i].0].connected <==> m.contains_key(es[i].0)
            && m[es[i].0].connected,
    decreases es.len(),
{
    let t = es.drop_last();
    let n = es.len() - 1;
    membership::law_merge_keeps_connections(m, me, es, now, es[i].0);
    if i < n {
        assert(t[i] == es[i]);
        law_announced_members_are_heard_of(m, me, t, now, i);
        assert(es[n] == es.last());
        if forall|j: int| i < j < es.len() ==> (#[trigger] es[j]).0 != es[i].0 {
            assert forall|j: int| i < j < t.len() implies (#[trigger] t[j]).0 != t[i].0 by {
                assert(es[j] == t[j]);
            }
        }
    }
}

/// Whoever is not announced stays as it was, and so does the node itself.
pub proof fn law_others_stay_as_they_were(
    m: Map<EndpointId, Member>,
    me: EndpointId,
    es: Seq<(EndpointId, MemberRole)>,
    now: u64,
    id: EndpointId,
)
    requires
        id == me || forall|j: int| 0 <= j < es.len() ==> (#[trigger] es[j]).0 != id,
    ensures
        membership::merged(m, me, es, now).contains_key(id) == m.contains_key(id),
        m.contains_key(id) ==> membership::merged(m, me, es, now)[id] == m[id],
    decreases es.len(),
{
    if es.len() > 0 {
        let t = es.drop_last();
        if id != me {
            assert forall|j: int| 0 <= j < t.len() implies (#[trigger] t[j]).0 != id by {
                assert(es[j] == t[j]);
            }
            assert(es[es.len() - 1].0 != id);
        }
        law_others_stay_as_they_were(m, me, t, now, id);
    }
}

/// A member that is announced again and again is never evicted: a sweep before the time
/// to live has passed since the last announcement keeps it.
pub proof fn law_announced_members_survive_the_sweep(
    m: Map<EndpointId, Member>,
    me: EndpointId,
    es: Seq<(EndpointId, MemberRole)>,
    now: u64,
    i: int,
    later: u64,
    ttl: u64,
)
    requires
        0 <= i < es.len(),
        es[i].0 != me,
        now <= later < now + ttl,
    ensures
        membership::swept(membership::merged(m, me, es, now), later, ttl).contains_key(es[i].0),
{
    law_announced_members_are_heard_of(m, me, es, now, i);
}

/// A sweep keeps whoever is connected and whoever was heard of within the time to live,
/// evicts everybody else, and changes nobody.
pub proof fn law_sweep_evicts_the_silent(
    m: Map<EndpointId, Member>,
    id: EndpointId,
    now: u64,
    ttl: u64,
)
    requires
        m.contains_key(id),
        m[id].last_heard <= now,
    ensures
        membership::swept(m, now, ttl).contains_key(id) <==> m[id].connected || now
            - m[id].last_heard < ttl,
        membership::swept(m, now, ttl).contains_key(id) ==> membership::swept(m, now, ttl)[id]
            == m[id],
{
}

/// A connection makes a member connected, under the role that it told, and heard of now;
/// its end makes it unconnected, heard of now, under the role that it had; neither touches
/// anybody else.
pub proof fn law_links_change_one_member(
    m: Map<EndpointId, Member>,
    id: EndpointId,
    role: MemberRole,
    now: u64,
    other: EndpointId,
)
    ensures
        membership::linked(m, id, role, now).contains_key(id),
        membership::linked(m, id, role, now)[id].connected,
        membership::linked(m, id, role, now)[id].role == role,
        membership::linked(m, id, role, now)[id].last_heard == now,
        membership::unlinked(m, id, now).contains_key(id) == m.contains_key(id),
        m.contains_key(id) ==> !membership::unlinked(m, id, now)[id].connected
            && membership::unlinked(m, id, now)[id].last_heard == now && membership::unlinked(
            m,
            id,
            now,
        )[id].role == m[id].role,
        other != id ==> membership::linked(m, id, role, now).contains_key(other) == m.contains_key(
            other,
        ) && membership::unlinked(m, id, now).contains_key(other) == m.contains_key(other),
        other != id && m.contains_key(other) ==> membership::linked(m, id, role, now)[other]
            == m[other] && membership::unlinked(m, id, now)[other] == m[other],
{
}

/// Every frontend that is new is reported: one that the view does not hold, announced as
/// a frontend when first named, is among the fresh ones.
pub proof fn law_every_new_frontend_is_fresh(
    m: Map<EndpointId, Member>,
    me: EndpointId,
    es: Seq<(EndpointId, MemberRole)>,
    i: int,
)
    requires
        0 <= i < es.len(),
        es[i].0 != me,
        es[i].1 == MemberRole::Frontend,
        !m.contains_key(es[i].0),
        forall|j: int| 0 <= j < i ==> (#[trigger] es[j]).0 != es[i].0,
    ensures
        membership::fresh_frontends(m, me, es).contains(es[i].0),
    decreases es.len(),
{
    let t = es.drop_last();
    let f = membership::fresh_frontends(m, me, t);
    crate::table::lemma_push_contains(f, es.last().0, es[i].0);
    if i < t.len() {
        assert(t[i] == es[i]);
        assert forall|j: int| 0 <= j < i implies (#[trigger] t[j]).0 != t[i].0 by {
            assert(es[j] == t[j]);
        }
        law_every_new_frontend_is_fresh(m, me, t, i);
    } else {
        assert(membership::first_mention(es, i));
    }
}

/// The view is shown member by member, with role, link and age in milliseconds, and the
/// node itself last.
pub proof fn law_view_is_shown_as_it_is(
    m: Membership,
    now: u64,
    v: Vec<(EndpointId, MemberRole, bool, u64)>,
    i: int,
)
    requires
        call_ensures(Membership::snapshot, (&m, now), v),
        0 <= i < m@.len(),
    ensures
        v@.len() == m@.len() + 1,
        m@.contains_key(v@[i].0),
        v@[i].1 == m@[v@[i].0].role,
        v@[i].2 == m@[v@[i].0].connected,
        m@[v@[i].0].last_heard <= now ==> v@[i].3 == (now - m@[v@[i].0].last_heard) / 1_000_000,
        v@.last().0 == m.self_id,
        v@.last().1 == m.self_role,
        v@.last().2,
{
    assert(v@[i] == membership::shown(v@[i].0, m@[v@[i].0], now));
}

/// What is announced is vouched for: the node itself, and exactly the members that it is
/// connected to.
pub proof fn law_announcements_name_the_connected(
    m: Membership,
    v: Vec<(EndpointId, MemberRole)>,
    id: EndpointId,
    linked: bool,
)
    requires
        call_ensures(Membership::announced_view, (&m,), v),
        call_ensures(Membership::is_connected, (&m, id), linked),
    ensures
        v@[0].0 == m.self_id,
        v@[0].1 == m.self_role,
        linked <==> m@.contains_key(id) && m@[id].connected,
        linked <==> exists|i: int| 1 <= i < v@.len() && (#[trigger] v@[i]).0 == id,
        forall|i: int|
            1 <= i < v@.len() ==> m@.contains_key((#[trigger] v@[i]).0) && v@[i].1
                == m@[v@[i].0].role,
{
    let w = v@.skip(1);
    if linked {
        assert(w.contains((id, m@[id].role)));
        let k = choose|k: int| 0 <= k < w.len() && w[k] == (id, m@[id].role);
        assert(v@[k + 1].0 == id);
    }
    assert forall|i: int| 1 <= i < v@.len() implies m@.contains_key((#[trigger] v@[i]).0)
        && v@[i].1 == m@[v@[i].0].role && m@[v@[i].0].connected by {
        assert(w[i - 1] == v@[i]);
        assert(w.contains((v@[i].0, v@[i].1)));
    }
}

/// The dialer's frontends are the members of that role, and never the node itself.
pub proof fn law_known_frontends(m: Membership, r: Vec<EndpointId>, id: EndpointId)
    requires
        call_ensures(Membership::frontends, (&m,), r),
    ensures
        r@.contains(id) <==> m@.contains_key(id) && m@[id].role == MemberRole::Frontend && id
            != m.self_id,
        r@.no_duplicates(),
{
}

// ---- the roster ----

/// A backend is dropped once nothing was heard of it for more than sixteen seconds, and
/// an announcement changes no other backend.
pub proof fn law_silent_backends_expire<A>(
    m: Map<EndpointId, Entry<A>>,
    addr: EndpointAddr<A>,
    epoch: u64,
    now: u64,
    e: Entry<A>,
    other: EndpointId,
)
    ensures
        e.last_seen <= now ==> (roster::expired(e, now) <==> now - e.last_seen > 16_000_000_000),
        other != addr.id ==> roster::announced(m, addr, epoch, now).contains_key(other)
            == m.contains_key(other),
        other != addr.id && m.contains_key(other) ==> roster::announced(m, addr, epoch, now)[other]
            == m[other],
        !m.contains_key(addr.id) || epoch >= m[addr.id].epoch ==> roster::announced(
            m,
            addr,
            epoch,
            now,
        )[addr.id].last_seen == now,
        roster::ANNOUNCE_INTERVAL == 5_000_000_000,
{
}

/// The live backends are shown once each, with address, epoch and age.
pub proof fn law_roster_is_shown_as_it_is<A>(
    r: Roster<A>,
    now: u64,
    v: Vec<roster::Backend<A>>,
    i: int,
)
    requires
        call_ensures(Roster::<A>::snapshot, (&r, now), v),
        0 <= i < v@.len(),
    ensures
        v@.len() == r@.len(),
        r@.contains_key(v@[i].id),
        *v@[i].addr == r@[v@[i].id].addr,
        v@[i].epoch == r@[v@[i].id].epoch,
        r@[v@[i].id].last_seen <= now ==> v@[i].age == now - r@[v@[i].id].last_seen,
{
}

// ---- placement ----

/// A backend answers with a bid exactly where it is healthy and has the memory; what it
/// bids is the memory left, less what its VMs and its load cost. What cannot be read is
/// declined.
pub proof fn law_bid_says_whether_it_fits(
    solicit: Option<Solicit>,
    snap: CapacitySnapshot,
    bid: Bid<Score>,
)
    requires
        call_ensures(bid_for, (solicit, &snap), bid),
    ensures
        bid.fits <==> solicit is Some && !snap.stalled && solicit->0.spec.mem_mb
            <= snap.mem_available_mb,
        bid.fits ==> bid.score.mem_headroom == snap.mem_available_mb - solicit->0.spec.mem_mb
            && bid.score.vm_penalty == 512 * snap.running_vms && bid.score.cpu_used_bits
            == snap.cpu_used_bits,
        !bid.fits ==> bid.score.mem_headroom == 0 && bid.score.vm_penalty == 0
            && bid.score.cpu_used_bits == 0,
{
}

/// A backend bids from a capacity that its source gave.
pub proof fn law_bid_is_made_from_the_source<S: CapacitySource>(
    proto: BidProto<S>,
    solicit: Solicit,
    bid: Bid<Score>,
)
    requires
        call_ensures(BidProto::<S>::accept, (&proto, Some(solicit)), bid),
    ensures
        exists|snap: CapacitySnapshot|
            {
                &&& #[trigger] call_ensures(S::snapshot, (&proto.capacity,), snap)
                &&& bid.fits <==> !snap.stalled && solicit.spec.mem_mb <= snap.mem_available_mb
                &&& bid.fits ==> bid.score.mem_headroom == snap.mem_available_mb
                    - solicit.spec.mem_mb && bid.score.vm_penalty == 512 * snap.running_vms
            },
{
    let snap = choose|snap: CapacitySnapshot| #[trigger]
        call_ensures(S::snapshot, (&proto.capacity,), snap) && bid == crate::bid::answer(
            Some(solicit),
            snap,
        );
    assert(call_ensures(S::snapshot, (&proto.capacity,), snap));
}

/// A reply counts exactly where it fits, and then as it came.
pub proof fn law_only_fitting_replies_count<S>(reply: Option<Bid<S>>, r: Option<Bid<S>>)
    requires
        call_ensures(solicit_one::<S>, (reply,), r),
    ensures
        r is Some <==> reply is Some && reply->0.fits,
        r is Some ==> r == reply,
{
}

/// A sandbox can go to exactly the backends that told a capacity, are healthy and have
/// the memory; each is listed once, with its connection and the memory that it would
/// have left.
pub proof fn law_every_backend_with_room_is_a_candidate<C, F: Fn(Score) -> i64>(
    t: BackendTable<C>,
    spec: BidSpec,
    rank: F,
    v: Vec<Candidate<C>>,
    id: EndpointId,
)
    requires
        call_ensures(BackendTable::<C>::best_for::<F>, (&t, spec, rank), v),
    ensures
        (exists|i: int| 0 <= i < v@.len() && (#[trigger] v@[i]).id == id) <==> t@.contains_key(id)
            && t@[id].capacity is Some && !t@[id].capacity->0.stalled && spec.mem_mb
            <= t@[id].capacity->0.mem_available_mb,
        forall|i: int|
            0 <= i < v@.len() ==> *(#[trigger] v@[i]).conn == t@[v@[i].id].conn
                && v@[i].score.mem_headroom == t@[v@[i].id].capacity->0.mem_available_mb
                - spec.mem_mb && v@[i].score.vm_penalty == 512
                * t@[v@[i].id].capacity->0.running_vms && call_ensures(
                rank,
                (v@[i].score,),
                v@[i].rank,
            ),
        forall|i: int, j: int|
            0 <= i < j < v@.len() ==> (#[trigger] v@[i]).id != (#[trigger] v@[j]).id,
{
    assert(backends::lists(v@, id) <==> t@.contains_key(id) && backends::offers(t@[id], spec));
    assert forall|i: int| 0 <= i < v@.len() implies *(#[trigger] v@[i]).conn == t@[v@[i].id].conn
        && v@[i].score.mem_headroom == t@[v@[i].id].capacity->0.mem_available_mb - spec.mem_mb
        && v@[i].score.vm_penalty == 512 * t@[v@[i].id].capacity->0.running_vms && call_ensures(
        rank,
        (v@[i].score,),
        v@[i].rank,
    ) by {
        assert(backends::offers(t@[v@[i].id], spec));
    }
}

/// Candidates stand best first: never less memory left before more, and at equal memory
/// never the lower rank before the higher.
pub proof fn law_candidates_stand_best_first<C, F: Fn(Score) -> i64>(
    t: BackendTable<C>,
    spec: BidSpec,
    rank: F,
    v: Vec<Candidate<C>>,
    i: int,
    j: int,
)
    requires
        call_ensures(BackendTable::<C>::best_for::<F>, (&t, spec, rank), v),
        0 <= i < j < v@.len(),
    ensures
        v@[i].score.mem_headroom >= v@[j].score.mem_headroom,
        v@[i].score.mem_headroom == v@[j].score.mem_headroom ==> v@[i].rank >= v@[j].rank,
        v@[i].score.mem_headroom == v@[j].score.mem_headroom && v@[i].rank == v@[j].rank
            ==> v@[i].score.vm_penalty <= v@[j].score.vm_penalty,
{
    assert(backends::no_worse(v@[i], v@[j]));
}

/// A backend is listed from when it connects, its capacity unknown; a capacity is that of
/// the connected backend which told it, and of no other.
pub proof fn law_capacity_belongs_to_its_backend<C>(
    m: Map<EndpointId, Backend<C>>,
    id: EndpointId,
    conn: C,
    cap: CapacitySnapshot,
    now: u64,
    other: EndpointId,
)
    ensures
        backends::with_backend(m, id, conn, now).contains_key(id),
        backends::with_backend(m, id, conn, now)[id].conn == conn,
        backends::with_backend(m, id, conn, now)[id].capacity is None,
        backends::with_backend(m, id, conn, now)[id].last_capacity == now,
        backends::with_capacity(m, id, cap, now).contains_key(id) == m.contains_key(id),
        m.contains_key(id) ==> backends::with_capacity(m, id, cap, now)[id].capacity == Some(cap)
            && backends::with_capacity(m, id, cap, now)[id].last_capacity == now
            && backends::with_capacity(m, id, cap, now)[id].conn == m[id].conn,
        other != id ==> backends::with_backend(m, id, conn, now).contains_key(other)
            == m.contains_key(other) && backends::with_capacity(m, id, cap, now).contains_key(other)
            == m.contains_key(other),
        other != id && m.contains_key(other) ==> backends::with_backend(m, id, conn, now)[other]
            == m[other] && backends::with_capacity(m, id, cap, now)[other] == m[other],
{
}

// ---- links ----

/// Who dials whom: a backend dials every other node, a frontend those with an id above
/// its own, and nobody dials itself, a peer that it is connected to, or one that is being
/// dialed.
pub proof fn law_who_dials_whom<C>(node: ClusterNode<C>, target: EndpointId)
    ensures
        link::dials(node.id, MemberRole::Backend, target) <==> target != node.id,
        link::dials(node.id, MemberRole::Frontend, target) <==> node.id.before(target),
        node.wants(target) <==> link::dials(node.id, node.role, target)
            && !(node.membership@.contains_key(target)
            && node.membership@[target].connected) && !node.dialing@.contains_key(target),
{
}

/// Only the token opens: a first message lets a peer in exactly where it is a hello that
/// shows the node's own token; the peer is then a connected member of the role that it
/// told, and a backend that a frontend can place sandboxes on. Every other first message
/// leaves the node as it was, and the peer out.
pub proof fn law_only_the_token_lets_in<C>(
    node: ClusterNode<C>,
    peer: EndpointId,
    conn: C,
    msg: Option<Control>,
    now: u64,
    new: ClusterNode<C>,
    next: PeerPhase<C>,
    step: PeerStep,
)
    requires
        link::peer_follows(node, peer, PeerPhase::Waiting(conn), msg, now, new, next, step),
    ensures
        next is LetIn <==> msg is Some && msg->0 is Hello && msg->0->token@ == node.token@,
        next is LetIn ==> {
            &&& new.membership@.contains_key(peer)
            &&& new.membership@[peer].connected
            &&& new.membership@[peer].role == msg->0->role
            &&& new.membership@[peer].last_heard == now
            &&& step is Go
            &&& step->Go_0@.len() == 0
            &&& node.role == MemberRole::Frontend && msg->0->role == MemberRole::Backend
                ==> new.kind.table().contains_key(peer) && new.kind.table()[peer].conn == conn
                && new.kind.table()[peer].capacity is None
            &&& node.role == MemberRole::Backend || msg->0->role == MemberRole::Frontend
                ==> new.kind.table() == node.kind.table()
        },
        !(next is LetIn) ==> next is Refused && step is Close && new == node,
{
}

/// What a peer that was let in announces is merged into the view, and the frontends that
/// it makes known are dialed, where the node dials them.
pub proof fn law_announced_frontends_are_dialed<C>(
    node: ClusterNode<C>,
    peer: EndpointId,
    entries: Vec<(EndpointId, MemberRole)>,
    now: u64,
    new: ClusterNode<C>,
    next: PeerPhase<C>,
    step: PeerStep,
    i: int,
)
    requires
        link::peer_follows(
            node,
            peer,
            PeerPhase::LetIn,
            Some(Control::Members(entries)),
            now,
            new,
            next,
            step,
        ),
        0 <= i < entries@.len(),
        entries@[i].0 != node.id,
    ensures
        next is LetIn,
        step is Go,
        new.membership@.contains_key(entries@[i].0),
        new.membership@[entries@[i].0].last_heard == now,
        entries@[i].1 == MemberRole::Frontend && !node.membership@.contains_key(entries@[i].0) && (
        forall|j: int| 0 <= j < i ==> (#[trigger] entries@[j]).0 != entries@[i].0) && node.wants(
            entries@[i].0,
        ) ==> step->Go_0@.contains(entries@[i].0) && new.dialing@.contains_key(entries@[i].0),
        forall|t: EndpointId| #[trigger] step->Go_0@.contains(t) ==> node.wants(t),
        new.kind == node.kind,
{
    law_announced_members_are_heard_of(node.membership@, node.id, entries@, now, i);
    if entries@[i].1 == MemberRole::Frontend && !node.membership@.contains_key(entries@[i].0) && (
    forall|j: int| 0 <= j < i ==> (#[trigger] entries@[j]).0 != entries@[i].0) && node.wants(
        entries@[i].0,
    ) {
        law_every_new_frontend_is_fresh(node.membership@, node.id, entries@, i);
        assert(step->Go_0@.contains(entries@[i].0));
    }
}

/// A capacity that a peer tells is kept for that peer where a frontend lists it; a second
/// hello changes nothing; and what cannot be read ends the reading, not the connection.
pub proof fn law_later_messages_of_a_peer<C>(
    node: ClusterNode<C>,
    peer: EndpointId,
    msg: Option<Control>,
    now: u64,
    new: ClusterNode<C>,
    next: PeerPhase<C>,
    step: PeerStep,
)
    requires
        link::peer_follows(node, peer, PeerPhase::LetIn, msg, now, new, next, step),
    ensures
        next is LetIn,
        msg is None ==> step is Stop && new == node,
        msg is Some && msg->0 is Hello ==> step is Go && step->Go_0@.len() == 0 && new == node,
        msg is Some && msg->0 is Capacity ==> {
            &&& step is Go
            &&& step->Go_0@.len() == 0
            &&& new.membership == node.membership
            &&& node.kind.table().contains_key(peer) ==> new.kind.table().contains_key(peer)
                && new.kind.table()[peer].capacity == Some(msg->0->Capacity_0)
                && new.kind.table()[peer].last_capacity == now
            &&& !node.kind.table().contains_key(peer) ==> new.kind.table() == node.kind.table()
        },
{
}

// ---- the backend agent ----

/// A backend with one frontend to dial starts, with the token of its secret; one without
/// any does not.
pub proof fn law_backend_needs_a_frontend(
    id: EndpointId,
    frontends: Result<Vec<EndpointId>, ids::IdError>,
    token: String,
    r: Result<BackendAgent, SpawnError>,
)
    requires
        call_ensures(BackendAgent::with_frontends, (id, frontends, token), r),
    ensures
        r is Ok <==> frontends is Ok && frontends->Ok_0@.len() > 0,
        r is Ok ==> r->Ok_0.id == id && r->Ok_0.frontends@ == frontends->Ok_0@
            && r->Ok_0.token@ == token@,
        frontends is Ok && frontends->Ok_0@.len() == 0 ==> r->Err_0 is NoFrontend,
        frontends is Err ==> r->Err_0 is Frontend && r->Err_0->Frontend_0 == frontends->Err_0,
{
}

/// The agent and the frontends derive the same token from the same secret, and different
/// agents of one secret share it.
pub proof fn law_backends_of_one_secret_share_the_token(
    a: EndpointId,
    b: EndpointId,
    one: BackendConfig,
    two: BackendConfig,
    secret: &str,
    first: Result<BackendAgent, SpawnError>,
    second: Result<BackendAgent, SpawnError>,
    token: String,
)
    requires
        one.secret@ == secret@,
        two.secret@ == secret@,
        call_ensures(BackendAgent::spawn, (a, &one), first),
        call_ensures(BackendAgent::spawn, (b, &two), second),
        call_ensures(wire::membership_token, (secret,), token),
        first is Ok,
        second is Ok,
    ensures
        first->Ok_0.token@ == second->Ok_0.token@,
        first->Ok_0.token@ == token@,
        first->Ok_0.id == a,
        first->Ok_0.frontends@.len() > 0,
{
}

/// A backend first shows its token as a backend, then tells its capacity, each time.
pub proof fn law_backend_shows_its_token_first(
    agent: BackendAgent,
    n: u64,
    snap: CapacitySnapshot,
    m: Control,
)
    requires
        call_ensures(BackendAgent::push_control, (&agent, n, snap), m),
    ensures
        n == 0 ==> m is Hello && m->token@ == agent.token@ && m->role == MemberRole::Backend,
        n > 0 ==> m is Capacity && m->Capacity_0 == snap,
{
}

// ---- identity ----

/// A key file of 32 bytes is the key; a file of another length is refused, a missing one
/// is generated, and one that cannot be read is reported.
pub proof fn law_key_file_is_the_key(read: KeyRead, step: KeyStep)
    requires
        call_ensures(load_or_generate, (read,), step),
    ensures
        step is Load <==> read is Bytes && read->Bytes_0@.len() == 32,
        step is Load ==> step->Load_0@ == read->Bytes_0@,
        step is Malformed <==> read is Bytes && read->Bytes_0@.len() != 32,
        step is Generate <==> read is NotFound,
        step is Fail <==> read is Failed,
{
}

/// A new key is written raw, for its owner alone, and is what the next start loads, with
/// the same id.
pub proof fn law_written_key_is_loaded(
    secret: [u8; 32],
    file: KeyFile,
    step: KeyStep,
    loaded: [u8; 32],
    before: EndpointId,
    after: EndpointId,
)
    requires
        call_ensures(key_file, (&secret,), file),
        call_ensures(load_or_generate, (KeyRead::Bytes(file.bytes),), step),
        step is Load ==> loaded@ == step->Load_0@,
        call_ensures(node_id, (&secret,), before),
        call_ensures(node_id, (&loaded,), after),
    ensures
        file.mode == 0o600,
        file.bytes@.len() == 32,
        forall|i: int| 0 <= i < 32 ==> #[trigger] file.bytes@[i] == secret[i],
        step is Load,
        step->Load_0@ == secret@,
        after == before,
{
}

// ---- what nodes say of themselves ----

/// A frontend announces itself as one, and a backend as one.
pub proof fn law_roles_follow_kinds<C>(kind: NodeKind<C>, role: MemberRole)
    requires
        call_ensures(NodeKind::<C>::role, (&kind,), role),
    ensures
        kind is Frontend ==> role == MemberRole::Frontend,
        kind is Backend ==> role == MemberRole::Backend,
{
}

/// A new node has the id, the kind and the token that it was built with, announces the
/// role of its kind, knows nobody and dials nobody.
pub proof fn law_new_node_knows_nobody<C>(
    id: EndpointId,
    kind: NodeKind<C>,
    token: String,
    node: ClusterNode<C>,
    other: EndpointId,
)
    requires
        call_ensures(ClusterNode::<C>::build, (id, kind, token), node),
    ensures
        node.id == id,
        node.membership.self_id == id,
        node.kind == kind,
        node.token == token,
        kind is Frontend ==> node.role == MemberRole::Frontend,
        kind is Backend ==> node.role == MemberRole::Backend,
        node.membership.ttl == 60_000_000_000,
        !node.membership@.contains_key(other),
        !node.dialing@.contains_key(other),
{
}

/// A node introduces itself with its role and its token.
pub proof fn law_nodes_introduce_themselves<C>(node: ClusterNode<C>, m: Control, id: EndpointId)
    requires
        call_ensures(ClusterNode::<C>::hello, (&node,), m),
        call_ensures(ClusterNode::<C>::endpoint_id, (&node,), id),
    ensures
        m is Hello,
        m->role == node.role,
        m->token@ == node.token@,
        id == node.id,
{
}

/// What a node announces names itself first and then exactly those it is connected to; a
/// backend tells its capacity with it, and a frontend has none to tell.
pub proof fn law_nodes_announce_their_view<C>(
    node: ClusterNode<C>,
    capacity: CapacitySnapshot,
    v: Vec<Control>,
    id: EndpointId,
    role: MemberRole,
)
    requires
        call_ensures(ClusterNode::<C>::announcements, (&node, capacity), v),
        id != node.id,
    ensures
        v@.len() > 0,
        v@[0] is Members,
        v@[0]->Members_0@.len() > 0,
        v@[0]->Members_0@[0] == (node.id, node.role),
        v@[0]->Members_0@.contains((id, role)) <==> node.membership@.contains_key(id)
            && node.membership@[id].connected && node.membership@[id].role == role,
        node.role == MemberRole::Backend ==> v@.len() == 2 && v@[1] is Capacity
            && v@[1]->Capacity_0 == capacity,
        node.role == MemberRole::Frontend ==> v@.len() == 1,
{
    let m = v@[0]->Members_0@;
    assert(m.skip(1).contains((id, role)) <==> m.contains((id, role))) by {
        if m.contains((id, role)) {
            let i = choose|i: int| 0 <= i < m.len() && m[i] == (id, role);
            assert(m.skip(1)[i - 1] == (id, role));
        }
        if m.skip(1).contains((id, role)) {
            let i = choose|i: int| 0 <= i < m.len() - 1 && m.skip(1)[i] == (id, role);
            assert(m[i + 1] == (id, role));
        }
    }
}

/// A backend that does not start tells why.
pub proof fn law_refused_starts_tell_why(e: SpawnError, s: String)
    requires
        call_ensures(SpawnError::message, (&e,), s),
    ensures
        e is NoFrontend ==> s@ == "a backend needs at least one frontend to dial"@,
        e is Frontend ==> s@ == "invalid frontend id "@ + ids::debug_text(e->Frontend_0.given@)
            + ": "@ + e->Frontend_0.detail@,
{
    reveal_strlit("invalid ");
    reveal_strlit("frontend");
    reveal_strlit(" id ");
    reveal_strlit("invalid frontend id ");
    assert("invalid "@ + "frontend"@ + " id "@ =~= "invalid frontend id "@);
}

/// A backend's agent has the id that it was spawned with.
pub proof fn law_agents_keep_their_id(
    id: EndpointId,
    cfg: BackendConfig,
    r: Result<BackendAgent, SpawnError>,
    shown: EndpointId,
)
    requires
        call_ensures(BackendAgent::spawn, (id, &cfg), r),
        r is Ok,
        call_ensures(BackendAgent::endpoint_id, (&r->Ok_0,), shown),
    ensures
        shown == id,
{
}

/// A key file of the wrong length is named.
pub proof fn law_malformed_files_are_named(path: &str, s: String)
    requires
        call_ensures(malformed_message, (path,), s),
    ensures
        s@ == "cluster key at "@ + path@ + " is not 32 bytes"@,
{
}

/// The bidding side holds the capacity that it was made with, and declines what it could
/// not read.
pub proof fn law_unread_solicitations_are_declined<S: CapacitySource>(
    capacity: S,
    p: BidProto<S>,
    bid: Bid<Score>,
)
    requires
        call_ensures(BidProto::<S>::new, (capacity,), p),
        call_ensures(BidProto::<S>::accept, (&p, None), bid),
    ensures
        p.capacity == capacity,
        !bid.fits,
        bid.score.mem_headroom == 0,
        bid.score.vm_penalty == 0,
        bid.score.cpu_used_bits == 0,
{
}

// ---- the tables ----

/// New tables hold nothing.
pub proof fn law_new_tables_are_empty<A, C>(
    r: Roster<A>,
    t: BackendTable<C>,
    s: SandboxRegistry,
    id: EndpointId,
    name: Seq<char>,
)
    requires
        call_ensures(Roster::<A>::new, (), r),
        call_ensures(BackendTable::<C>::new, (), t),
        call_ensures(SandboxRegistry::new, (), s),
    ensures
        !r@.contains_key(id),
        !t@.contains_key(id),
        !s@.contains_key(name),
{
}

/// A table is as long as it has entries, and empty where it has none.
pub proof fn law_tables_count_their_entries<A, C>(
    r: Roster<A>,
    t: BackendTable<C>,
    s: SandboxRegistry,
    n: usize,
    empty: bool,
    k: usize,
    l: usize,
)
    requires
        call_ensures(Roster::<A>::len, (&r,), n),
        call_ensures(Roster::<A>::is_empty, (&r,), empty),
        call_ensures(BackendTable::<C>::len, (&t,), k),
        call_ensures(SandboxRegistry::len, (&s,), l),
    ensures
        n == r@.dom().len(),
        empty <==> n == 0,
        k == t@.dom().len(),
        l == s@.dom().len(),
{
    assert(r@.dom().finite());
    if n == 0 {
        assert(r@.dom() =~= Set::<EndpointId>::empty());
        assert(r@ =~= Map::<EndpointId, Entry<A>>::empty());
    }
}

/// A request is forwarded over the connection of its backend, where that is connected.
pub proof fn law_requests_are_forwarded_over_the_connection<C>(
    t: BackendTable<C>,
    id: &EndpointId,
    r: Option<&C>,
)
    requires
        call_ensures(BackendTable::<C>::forward_conn, (&t, id), r),
    ensures
        r is Some <==> t@.contains_key(*id),
        r is Some ==> *r->0 == t@[*id].conn,
{
}

/// Every connected backend is listed once, with its connection, and no other.
pub proof fn law_all_connections_are_listed<C>(
    t: BackendTable<C>,
    v: Vec<(EndpointId, &C)>,
    id: EndpointId,
)
    requires
        call_ensures(BackendTable::<C>::all, (&t,), v),
    ensures
        t@.contains_key(id) <==> exists|i: int|
            0 <= i < v@.len() && (#[trigger] v@[i]).0 == id && *v@[i].1 == t@[id].conn,
        forall|i: int, j: int|
            0 <= i < v@.len() && 0 <= j < v@.len() && (#[trigger] v@[i]).0 == (#[trigger] v@[j]).0
                ==> i == j,
{
    if t@.contains_key(id) {
        let i = choose|i: int| 0 <= i < v@.len() && (#[trigger] v@[i]).0 == id;
        assert(t@.contains_key(v@[i].0));
    }
    assert forall|i: int, j: int|
        0 <= i < v@.len() && 0 <= j < v@.len() && (#[trigger] v@[i]).0 == (#[trigger] v@[j]).0
        implies i == j by {
        if i < j {
            assert(v@[i].0 != v@[j].0);
        } else if j < i {
            assert(v@[j].0 != v@[i].0);
        }
    }
}

/// Every placement is listed once, with its backend, and no other.
pub proof fn law_all_placements_are_listed(
    s: SandboxRegistry,
    v: Vec<(String, EndpointId)>,
    name: Seq<char>,
)
    requires
        call_ensures(SandboxRegistry::snapshot, (&s,), v),
    ensures
        s@.contains_key(name) <==> exists|i: int|
            0 <= i < v@.len() && (#[trigger] v@[i]).0@ == name && v@[i].1 == s@[name],
        forall|i: int, j: int|
            0 <= i < v@.len() && 0 <= j < v@.len() && (#[trigger] v@[i]).0@ == (
            #[trigger] v@[j]).0@ ==> i == j,
{
    if s@.contains_key(name) {
        let i = table::lemma_key(v@, name);
        table::lemma_entry(v@, i);
        assert(v@[i].0@ == name);
    }
    assert forall|i: int| 0 <= i < v@.len() && (#[trigger] v@[i]).0@ == name implies s@.contains_key(
        name,
    ) by {
        table::lemma_entry(v@, i);
    }
    assert forall|i: int, j: int|
        0 <= i < v@.len() && 0 <= j < v@.len() && (#[trigger] v@[i]).0@ == (#[trigger] v@[j]).0@
        implies i == j by {
        assert(v@[i].0.name() == v@[j].0.name());
    }
}

/// An id is read back from the digits in which it is shown, and belongs to its secret: one
/// secret has one id.
pub proof fn law_ids_are_read_from_their_digits(
    secret: [u8; 32],
    id: EndpointId,
    shown: String,
    again: EndpointId,
)
    requires
        call_ensures(node_id, (&secret,), id),
        call_ensures(node_id, (&secret,), again),
        call_ensures(EndpointId::to_text, (&id,), shown),
    ensures
        ids::id_in(shown@) == Some(id),
        again == id,
{
}

/// The connected backends are shown each once: with the capacity that each told last, the
/// whole milliseconds since then, and whether its connection is direct.
pub proof fn law_connected_backends_are_shown<C, F: Fn(&C) -> bool>(
    t: BackendTable<C>,
    direct: F,
    good: spec_fn(C) -> bool,
    now: u64,
    v: Vec<BackendRow>,
    id: EndpointId,
)
    requires
        forall|c: &C, b: bool| #[trigger] call_ensures(direct, (c,), b) ==> b == good(*c),
        call_ensures(BackendTable::<C>::snapshot::<F>, (&t, direct, now), v),
    ensures
        v@.len() == t@.dom().len(),
        t@.contains_key(id) ==> exists|i: int|
            {
                &&& 0 <= i < v@.len()
                &&& (#[trigger] v@[i]).id == id
                &&& v@[i].capacity == t@[id].capacity
                &&& v@[i].direct == good(t@[id].conn)
                &&& t@[id].last_capacity <= now ==> v@[i].age_ms == (now - t@[id].last_capacity)
                    / 1_000_000
            },
        !t@.contains_key(id) ==> forall|i: int| 0 <= i < v@.len() ==> (#[trigger] v@[i]).id != id,
{
    if t@.contains_key(id) {
        let i = choose|i: int| 0 <= i < v@.len() && (#[trigger] v@[i]).id == id;
        assert(call_ensures(direct, (&t@[v@[i].id].conn,), v@[i].direct));
    }
}

}
