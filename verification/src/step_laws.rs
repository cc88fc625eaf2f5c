//! What the calls that change a node's state do to it: each law speaks of the state before
//! and after one call.

use crate::backends::BackendTable;
use crate::capacity::CapacitySnapshot;
use crate::cli::proxy::ProxyConfig;
use crate::frontend::{Frontend, RosterChange, TunnelEvent, TunnelStep};
use crate::http::{received, HeadStep};
use crate::ids::EndpointId;
use crate::link;
use crate::link::{ClusterNode, PeerPhase, PeerStep};
use crate::membership;
use crate::membership::{MemberRole, Membership};
use crate::node_laws;
use crate::registry::SandboxRegistry;
use crate::roster::{EndpointAddr, Roster};
use crate::string_map::StringMap;
use crate::wire::{ClusterMsg, Control};
use vstd::prelude::*;
use vstd::string::*;

verus! {

// ---- membership ----

/// Merging an announcement hears of everyone it names but the node itself, known or not:
/// they are in the view, last heard of now, under the role last named. Nobody's link
/// changes, nobody else is touched, and every frontend that was new is reported.
pub proof fn law_merge_hears_of_everyone_named(
    m: &mut Membership,
    entries: &Vec<(EndpointId, MemberRole)>,
    now: u64,
    fresh: Vec<EndpointId>,
    i: int,
)
    requires
        call_ensures(Membership::merge, (m, entries, now), fresh),
        0 <= i < entries@.len(),
        entries@[i].0 != old(m).self_id,
    ensures
        final(m)@.contains_key(entries@[i].0),
        final(m)@[entries@[i].0].last_heard == now,
        (forall|j: int| i < j < entries@.len() ==> (#[trigger] entries@[j]).0 != entries@[i].0)
            ==> final(m)@[entries@[i].0].role == entries@[i].1,
        final(m)@[entries@[i].0].connected <==> old(m)@.contains_key(entries@[i].0)
            && old(m)@[entries@[i].0].connected,
        final(m).self_id == old(m).self_id,
        final(m).ttl == old(m).ttl,
        !old(m)@.contains_key(entries@[i].0) && entries@[i].1 == MemberRole::Frontend && (forall|
            j: int,
        |
            0 <= j < i ==> (#[trigger] entries@[j]).0 != entries@[i].0) ==> fresh@.contains(
            entries@[i].0,
        ),
{
    node_laws::law_announced_members_are_heard_of(old(m)@, old(m).self_id, entries@, now, i);
    if !old(m)@.contains_key(entries@[i].0) && entries@[i].1 == MemberRole::Frontend && (forall|
        j: int,
    |
        0 <= j < i ==> (#[trigger] entries@[j]).0 != entries@[i].0) {
        node_laws::law_every_new_frontend_is_fresh(old(m)@, old(m).self_id, entries@, i);
    }
}

/// Merging an announcement leaves everyone that it does not name as they were.
pub proof fn law_merge_leaves_the_others(
    m: &mut Membership,
    entries: &Vec<(EndpointId, MemberRole)>,
    now: u64,
    fresh: Vec<EndpointId>,
    id: EndpointId,
)
    requires
        call_ensures(Membership::merge, (m, entries, now), fresh),
        id == old(m).self_id || forall|j: int|
            0 <= j < entries@.len() ==> (#[trigger] entries@[j]).0 != id,
    ensures
        final(m)@.contains_key(id) == old(m)@.contains_key(id),
        old(m)@.contains_key(id) ==> final(m)@[id] == old(m)@[id],
        !fresh@.contains(id),
{
    node_laws::law_others_stay_as_they_were(old(m)@, old(m).self_id, entries@, now, id);
    membership::law_only_frontends_are_fresh(old(m)@, old(m).self_id, entries@);
    membership::law_merge_passes_over_self(old(m)@, old(m).self_id, entries@, now);
}

/// A sweep evicts exactly the unconnected that were not heard of within the time to live.
pub proof fn law_sweep_evicts_exactly_the_silent(m: &mut Membership, now: u64, id: EndpointId)
    requires
        call_ensures(Membership::sweep, (m, now), ()),
        old(m)@.contains_key(id) ==> old(m)@[id].last_heard <= now,
    ensures
        final(m)@.contains_key(id) <==> old(m)@.contains_key(id) && (old(m)@[id].connected || now
            - old(m)@[id].last_heard < old(m).ttl),
        final(m)@.contains_key(id) ==> final(m)@[id] == old(m)@[id],
{
}

/// A link that comes up makes its member connected, and leaves the others.
pub proof fn law_link_up(
    m: &mut Membership,
    id: EndpointId,
    role: MemberRole,
    now: u64,
    other: EndpointId,
)
    requires
        call_ensures(Membership::connected, (m, id, role, now), ()),
        other != id,
    ensures
        final(m)@.contains_key(id),
        final(m)@[id].connected,
        final(m)@[id].role == role,
        final(m)@[id].last_heard == now,
        final(m)@.contains_key(other) == old(m)@.contains_key(other),
        old(m)@.contains_key(other) ==> final(m)@[other] == old(m)@[other],
{
}

/// A link that goes down leaves its member in the view, unconnected, heard of now, under
/// its role; and leaves the others.
pub proof fn law_link_down(m: &mut Membership, id: EndpointId, now: u64, other: EndpointId)
    requires
        call_ensures(Membership::disconnected, (m, id, now), ()),
        other != id,
    ensures
        final(m)@.contains_key(id) == old(m)@.contains_key(id),
        old(m)@.contains_key(id) ==> !final(m)@[id].connected && final(m)@[id].last_heard == now
            && final(m)@[id].role == old(m)@[id].role,
        final(m)@.contains_key(other) == old(m)@.contains_key(other),
        old(m)@.contains_key(other) ==> final(m)@[other] == old(m)@[other],
{
}

/// Seeds are frontends to be dialed: those not known are added unconnected, and nobody
/// known is touched.
pub proof fn law_seeds_are_added(
    m: &mut Membership,
    seeds: &Vec<EndpointId>,
    now: u64,
    id: EndpointId,
)
    requires
        call_ensures(Membership::seed_frontends, (m, seeds, now), ()),
    ensures
        old(m)@.contains_key(id) ==> final(m)@.contains_key(id) && final(m)@[id] == old(m)@[id],
        !old(m)@.contains_key(id) ==> (final(m)@.contains_key(id) <==> seeds@.contains(id) && id
            != old(m).self_id),
        !old(m)@.contains_key(id) && final(m)@.contains_key(id) ==> final(m)@[id].role
            == MemberRole::Frontend && !final(m)@[id].connected && final(m)@[id].last_heard == now,
{
    if final(m)@.contains_key(id) {
        assert(final(m)@[id] == final(m)@[id]);
    }
}

// ---- the roster, the registry and the backends ----

/// An announcement records its backend unless a newer one is known, and touches no other.
pub proof fn law_announcement_is_recorded<A>(
    r: &mut Roster<A>,
    addr: EndpointAddr<A>,
    epoch: u64,
    now: u64,
    other: EndpointId,
)
    requires
        call_ensures(Roster::<A>::upsert, (r, addr, epoch, now), ()),
        other != addr.id,
    ensures
        final(r)@.contains_key(addr.id),
        !old(r)@.contains_key(addr.id) || epoch >= old(r)@[addr.id].epoch
            ==> final(r)@[addr.id].addr == addr && final(r)@[addr.id].epoch == epoch
            && final(r)@[addr.id].last_seen == now,
        old(r)@.contains_key(addr.id) && epoch < old(r)@[addr.id].epoch ==> final(r)@[addr.id]
            == old(r)@[addr.id],
        final(r)@.contains_key(other) == old(r)@.contains_key(other),
        old(r)@.contains_key(other) ==> final(r)@[other] == old(r)@[other],
{
}

/// A sweep drops exactly the backends of which nothing was heard for more than sixteen
/// seconds, and reports them; a withdrawal drops its backend alone.
pub proof fn law_roster_drops_the_silent<A>(
    r: &mut Roster<A>,
    now: u64,
    dead: Vec<EndpointId>,
    id: EndpointId,
)
    requires
        call_ensures(Roster::<A>::sweep, (r, now), dead),
        old(r)@.contains_key(id),
        old(r)@[id].last_seen <= now,
    ensures
        dead@.contains(id) <==> now - old(r)@[id].last_seen > 16_000_000_000,
        final(r)@.contains_key(id) <==> now - old(r)@[id].last_seen <= 16_000_000_000,
        final(r)@.contains_key(id) ==> final(r)@[id] == old(r)@[id],
{
    assert(dead@.contains(id) <==> dead@.to_set().contains(id));
}

/// A withdrawn backend is off the roster, and the others are not.
pub proof fn law_withdrawal<A>(r: &mut Roster<A>, id: &EndpointId, was: bool, other: EndpointId)
    requires
        call_ensures(Roster::<A>::remove, (r, id), was),
        other != *id,
    ensures
        was <==> old(r)@.contains_key(*id),
        !final(r)@.contains_key(*id),
        final(r)@.contains_key(other) == old(r)@.contains_key(other),
        old(r)@.contains_key(other) ==> final(r)@[other] == old(r)@[other],
{
}

/// A placed sandbox is located on its backend, and the others where they were.
pub proof fn law_placed_sandbox_is_located(
    r: &mut SandboxRegistry,
    sandbox: &str,
    backend: EndpointId,
    other: Seq<char>,
)
    requires
        call_ensures(SandboxRegistry::place, (r, sandbox, backend), ()),
        other != sandbox@,
    ensures
        final(r)@.contains_key(sandbox@),
        final(r)@[sandbox@] == backend,
        final(r)@.contains_key(other) == old(r)@.contains_key(other),
        old(r)@.contains_key(other) ==> final(r)@[other] == old(r)@[other],
{
}

/// A forgotten sandbox is located nowhere, and the others where they were.
pub proof fn law_forgotten_sandbox_is_gone(
    r: &mut SandboxRegistry,
    sandbox: &str,
    was: bool,
    other: Seq<char>,
)
    requires
        call_ensures(SandboxRegistry::forget, (r, sandbox), was),
        other != sandbox@,
    ensures
        was <==> old(r)@.contains_key(sandbox@),
        !final(r)@.contains_key(sandbox@),
        final(r)@.contains_key(other) == old(r)@.contains_key(other),
        old(r)@.contains_key(other) ==> final(r)@[other] == old(r)@[other],
{
}

/// A backend that connects is listed with its connection and no capacity; the others
/// stay.
pub proof fn law_connected_backend_is_listed<C>(
    t: &mut BackendTable<C>,
    id: EndpointId,
    conn: C,
    now: u64,
    other: EndpointId,
)
    requires
        call_ensures(BackendTable::<C>::register, (t, id, conn, now), ()),
        other != id,
    ensures
        final(t)@.contains_key(id),
        final(t)@[id].conn == conn,
        final(t)@[id].capacity is None,
        final(t)@.contains_key(other) == old(t)@.contains_key(other),
        old(t)@.contains_key(other) ==> final(t)@[other] == old(t)@[other],
{
}

/// A capacity is kept for the listed backend that told it, as it was told; an unlisted
/// one stays unlisted, and the others stay.
pub proof fn law_told_capacity_is_kept<C>(
    t: &mut BackendTable<C>,
    id: EndpointId,
    cap: CapacitySnapshot,
    now: u64,
    other: EndpointId,
)
    requires
        call_ensures(BackendTable::<C>::update_capacity, (t, id, cap, now), ()),
        other != id,
    ensures
        final(t)@.contains_key(id) == old(t)@.contains_key(id),
        old(t)@.contains_key(id) ==> final(t)@[id].capacity == Some(cap)
            && final(t)@[id].last_capacity == now && final(t)@[id].conn == old(t)@[id].conn,
        final(t)@.contains_key(other) == old(t)@.contains_key(other),
        old(t)@.contains_key(other) ==> final(t)@[other] == old(t)@[other],
{
}

/// A backend whose connection is gone is listed no more.
pub proof fn law_gone_backend_is_unlisted<C>(
    t: &mut BackendTable<C>,
    id: &EndpointId,
    was: bool,
    other: EndpointId,
)
    requires
        call_ensures(BackendTable::<C>::remove, (t, id), was),
        other != *id,
    ensures
        was <==> old(t)@.contains_key(*id),
        !final(t)@.contains_key(*id),
        final(t)@.contains_key(other) == old(t)@.contains_key(other),
        old(t)@.contains_key(other) ==> final(t)@[other] == old(t)@[other],
{
}

// ---- the node ----

/// A dial starts exactly where one is wanted: to another node that this one dials, is not
/// connected to and is not dialing; and then it is in flight.
pub proof fn law_wanted_dials_start<C>(node: &mut ClusterNode<C>, target: EndpointId, r: bool)
    requires
        call_ensures(ClusterNode::<C>::maybe_dial, (node, target), r),
    ensures
        r <==> target != old(node).id && (old(node).role == MemberRole::Backend || old(node).id.before(target)) && !(old(node).membership@.contains_key(target) && old(node).membership@[target].connected) && !old(node).dialing@.contains_key(target),
        r ==> final(node).dialing@.contains_key(target),
        !r ==> final(node).dialing@ == old(node).dialing@,
        forall|other: EndpointId|
            other != target ==> #[trigger] final(node).dialing@.contains_key(other) == old(node).dialing@.contains_key(other),
        final(node).membership == old(node).membership,
        final(node).kind == old(node).kind,
{
}

/// A round of the dialer dials every known frontend that wants it, and nobody else.
pub proof fn law_round_dials_every_frontend<C>(
    node: &mut ClusterNode<C>,
    now: u64,
    out: Vec<EndpointId>,
    t: EndpointId,
)
    requires
        call_ensures(ClusterNode::<C>::dial_round, (node, now), out),
    ensures
        out@.contains(t) <==> {
            &&& old(node).membership@.contains_key(t)
            &&& old(node).membership@[t].role == MemberRole::Frontend
            &&& !old(node).membership@[t].connected
            &&& t != old(node).id
            &&& old(node).role == MemberRole::Backend || old(node).id.before(t)
            &&& !old(node).dialing@.contains_key(t)
        },
        out@.no_duplicates(),
        final(node).dialing@.contains_key(t) <==> old(node).dialing@.contains_key(t) || out@.contains(t),
        final(node).kind == old(node).kind,
{
}

/// A dial that is over is no longer in flight.
pub proof fn law_ended_dials_are_over<C>(
    node: &mut ClusterNode<C>,
    target: EndpointId,
    other: EndpointId,
)
    requires
        call_ensures(ClusterNode::<C>::dial_done, (node, target), ()),
        other != target,
    ensures
        !final(node).dialing@.contains_key(target),
        final(node).dialing@.contains_key(other) == old(node).dialing@.contains_key(other),
        final(node).membership == old(node).membership,
        final(node).kind == old(node).kind,
{
}

/// Only a hello with the node's token lets a peer in; the peer is then a connected member.
/// A refused peer leaves no trace, whatever it sends.
pub proof fn law_peers_need_the_token<C>(
    node: &mut ClusterNode<C>,
    peer: EndpointId,
    phase: PeerPhase<C>,
    msg: Option<Control>,
    now: u64,
    r: (PeerPhase<C>, PeerStep),
)
    requires
        call_ensures(ClusterNode::<C>::read_control, (node, peer, phase, msg, now), r),
    ensures
        phase is Waiting ==> (r.0 is LetIn <==> msg is Some && msg->0 is Hello && msg->0->token@
            == old(node).token@),
        phase is Waiting && r.0 is LetIn ==> final(node).membership@.contains_key(peer) && final(node).membership@[peer].connected && final(node).membership@[peer].role == msg->0->role,
        phase is Waiting && !(r.0 is LetIn) ==> r.0 is Refused && r.1 is Close && *final(node)
            == *old(node),
        phase is Refused ==> r.0 is Refused && r.1 is Close && *final(node) == *old(node),
        phase is LetIn ==> r.0 is LetIn && !(r.1 is Close),
        phase is LetIn && msg is None ==> r.1 is Stop && *final(node) == *old(node),
{
}

/// What a peer announces is heard of, and what it tells of its capacity is kept.
pub proof fn law_peers_are_listened_to<C>(
    node: &mut ClusterNode<C>,
    peer: EndpointId,
    msg: Control,
    now: u64,
    r: (PeerPhase<C>, PeerStep),
    i: int,
)
    requires
        old(node).wf(),
        call_ensures(
            ClusterNode::<C>::read_control,
            (node, peer, PeerPhase::<C>::LetIn, Some(msg), now),
            r,
        ),
    ensures
        msg is Members && 0 <= i < msg->Members_0@.len() && msg->Members_0@[i].0 != old(node).id
            ==> final(node).membership@.contains_key(msg->Members_0@[i].0) && final(node).membership@[msg->Members_0@[i].0].last_heard == now,
        msg is Capacity && old(node).kind.table().contains_key(peer) ==> final(node).kind.table()[peer].capacity == Some(msg->Capacity_0),
{
    if msg is Members && 0 <= i < msg->Members_0@.len() && msg->Members_0@[i].0 != old(node).id {
        node_laws::law_announced_members_are_heard_of(
            old(node).membership@,
            old(node).id,
            msg->Members_0@,
            now,
            i,
        );
    }
}

/// A connection that closes takes its backend off the table and leaves its member
/// unconnected.
pub proof fn law_closed_connection<C>(node: &mut ClusterNode<C>, peer: EndpointId, now: u64)
    requires
        call_ensures(ClusterNode::<C>::connection_closed, (node, peer, now), ()),
    ensures
        !final(node).kind.table().contains_key(peer),
        old(node).membership@.contains_key(peer) ==> !final(node).membership@[peer].connected
            && final(node).membership@[peer].last_heard == now,
        final(node).membership@.contains_key(peer) == old(node).membership@.contains_key(peer),
{
}

// ---- the frontend ----

/// A failed attempt to tunnel drops the cached connection and is made once more; a second
/// failure gives up; an open stream is joined.
pub proof fn law_tunnels_are_tried_twice<A, C>(
    fe: &mut Frontend<A, C>,
    id: &EndpointId,
    attempt: u32,
    event: TunnelEvent,
    step: TunnelStep,
    other: EndpointId,
)
    requires
        call_ensures(Frontend::<A, C>::tunnel_step, (fe, id, attempt, event), step),
        other != *id,
    ensures
        step is Splice <==> event is Opened,
        step is Retry <==> !(event is Opened) && attempt == 0,
        step is GiveUp <==> !(event is Opened) && attempt > 0,
        step is Retry ==> !final(fe).conns@.contains_key(*id),
        !(step is Retry) ==> final(fe).conns@ == old(fe).conns@,
        final(fe).conns@.contains_key(other) == old(fe).conns@.contains_key(other),
        final(fe).roster == old(fe).roster,
{
}

/// Messages of the topic keep the roster: an announcement lists its backend, a withdrawal
/// takes it off.
pub proof fn law_topic_keeps_the_roster<A, C>(
    fe: &mut Frontend<A, C>,
    msg: ClusterMsg<A>,
    now: u64,
    change: RosterChange,
    other: EndpointId,
)
    requires
        call_ensures(Frontend::<A, C>::heard, (fe, msg, now), change),
    ensures
        msg is Announce ==> final(fe).roster@.contains_key(msg->addr.id),
        msg is Announce && !old(fe).roster@.contains_key(msg->addr.id) ==> change
            == RosterChange::Joined(msg->addr.id) && final(fe).roster@[msg->addr.id].addr
            == msg->addr && final(fe).roster@[msg->addr.id].last_seen == now,
        msg is Announce && old(fe).roster@.contains_key(msg->addr.id) ==> change
            == RosterChange::Heard(msg->addr.id),
        msg is Announce && old(fe).roster@.contains_key(msg->addr.id) && msg->epoch >= old(fe).roster@[msg->addr.id].epoch
            ==> final(fe).roster@[msg->addr.id] == (crate::roster::Entry {
            addr: msg->addr,
            epoch: msg->epoch,
            last_seen: now,
        }),
        msg is Announce && old(fe).roster@.contains_key(msg->addr.id) && msg->epoch < old(fe).roster@[msg->addr.id].epoch
            ==> final(fe).roster@ == old(fe).roster@,
        msg is Announce && other != msg->addr.id ==> final(fe).roster@.contains_key(other) == old(fe).roster@.contains_key(other)
            && final(fe).roster@[other] == old(fe).roster@[other],
        msg is Withdraw ==> !final(fe).roster@.contains_key(msg->id),
        msg is Withdraw && old(fe).roster@.contains_key(msg->id) ==> change
            == RosterChange::Withdrew(msg->id),
        msg is Withdraw && !old(fe).roster@.contains_key(msg->id) ==> change is Nothing,
        msg is Withdraw && other != msg->id ==> final(fe).roster@.contains_key(other) == old(fe).roster@.contains_key(other)
            && final(fe).roster@[other] == old(fe).roster@[other],
        final(fe).conns == old(fe).conns,
{
}

/// A dialed connection is cached for its backend, and a dropped one is not.
pub proof fn law_connections_are_cached<A, C>(
    fe: &mut Frontend<A, C>,
    id: EndpointId,
    conn: C,
    other: EndpointId,
)
    requires
        call_ensures(Frontend::<A, C>::store, (fe, id, conn), ()),
        other != id,
    ensures
        final(fe).conns@.contains_key(id),
        final(fe).conns@[id] == conn,
        final(fe).conns@.contains_key(other) == old(fe).conns@.contains_key(other),
        final(fe).conns@[other] == old(fe).conns@[other],
        final(fe).roster == old(fe).roster,
{
}

/// A dropped connection is cached no more, and all others still are.
pub proof fn law_dropped_connections_are_forgotten<A, C>(
    fe: &mut Frontend<A, C>,
    id: &EndpointId,
    other: EndpointId,
)
    requires
        call_ensures(Frontend::<A, C>::invalidate, (fe, id), ()),
        other != *id,
    ensures
        !final(fe).conns@.contains_key(*id),
        final(fe).conns@.contains_key(other) == old(fe).conns@.contains_key(other),
        old(fe).conns@.contains_key(other) ==> final(fe).conns@[other] == old(fe).conns@[other],
        final(fe).roster == old(fe).roster,
{
}

/// What was read of a head is kept in order; the end of the stream ends the reading.
pub proof fn law_chunks_are_kept(buf: &mut Vec<u8>, chunk: &[u8], step: HeadStep)
    requires
        call_ensures(received, (buf, chunk), step),
    ensures
        final(buf)@ == old(buf)@ + chunk@,
        chunk@.len() == 0 ==> step is Done && step->Done_0 is None,
        step is Done && step->Done_0 is Some ==> {
            let e = step->Done_0->0 as int;
            4 <= e <= final(buf)@.len() && final(buf)@.subrange(e - 4, e) == seq![
                13u8,
                10u8,
                13u8,
                10u8,
            ]
        },
        step is Read ==> final(buf)@.len() < 16384,
{
    crate::bytes::lemma_position(final(buf)@, crate::bytes::blank_line());
}

// ---- the proxy and string maps ----

/// A request refreshes its sandbox where none was noted or fifteen seconds have passed
/// since, notes it, and leaves the other sandboxes.
pub proof fn law_requests_refresh_their_sandbox(
    cfg: &mut ProxyConfig,
    id: &str,
    now: u64,
    r: Option<String>,
    other: Seq<char>,
)
    requires
        call_ensures(ProxyConfig::maybe_touch, (cfg, id, now), r),
        old(cfg).last_touch@.contains_key(id@) ==> old(cfg).last_touch@[id@] <= now,
        other != id@,
    ensures
        r is Some <==> !old(cfg).last_touch@.contains_key(id@) || now - old(cfg).last_touch@[id@]
            >= 15_000_000_000,
        r is Some ==> final(cfg).last_touch@.contains_key(id@) && final(cfg).last_touch@[id@]
            == now,
        r is None ==> final(cfg).last_touch@ == old(cfg).last_touch@,
        final(cfg).last_touch@.contains_key(other) == old(cfg).last_touch@.contains_key(other),
        final(cfg).upstream_host == old(cfg).upstream_host,
        final(cfg).api_key == old(cfg).api_key,
{
}

/// A binding is found again, and leaves the others.
pub proof fn law_bindings_are_found(
    m: &mut StringMap,
    key: String,
    value: String,
    other: Seq<char>,
)
    requires
        call_ensures(StringMap::insert, (m, key, value), ()),
        other != key@,
    ensures
        final(m)@.contains_key(key@),
        final(m)@[key@] == value@,
        final(m)@.contains_key(other) == old(m)@.contains_key(other),
        old(m)@.contains_key(other) ==> final(m)@[other] == old(m)@[other],
{
}

/// The value of a key is that of the entry which has it.
pub proof fn law_entries_are_found_by_their_keys(
    m: StringMap,
    key: &str,
    v: Option<&str>,
    i: int,
)
    requires
        m.wf(),
        call_ensures(StringMap::get, (&m, key), v),
        0 <= i < m.entries@.len(),
    ensures
        m.entries@[i].0@ == key@ ==> v is Some && v->0@ == m.entries@[i].1@,
        v is Some ==> exists|j: int| 0 <= j < m.entries@.len() && (#[trigger] m.entries@[j]).0@ == key@,
{
    crate::string_map::lemma_bound(m.entries@, i);
    if v is Some {
        let j = crate::string_map::lemma_bound_key(m.entries@, key@);
        assert(m.entries@[j].0@ == key@);
    }
}

// ---- nodes ----

/// A node starts with the frontends that it was given, not yet connected, and forgets
/// nobody whom it knew.
pub proof fn law_node_starts_from_its_seeds<C>(
    node: &mut ClusterNode<C>,
    seeds: &Vec<EndpointId>,
    now: u64,
    id: EndpointId,
)
    requires
        call_ensures(ClusterNode::<C>::start, (node, seeds, now), ()),
    ensures
        old(node).membership@.contains_key(id) ==> final(node).membership@.contains_key(id)
            && final(node).membership@[id] == old(node).membership@[id],
        !old(node).membership@.contains_key(id) && id != old(node).id && seeds@.contains(id)
            ==> final(node).membership@.contains_key(id) && final(node).membership@[id].role
            == MemberRole::Frontend && final(node).membership@[id].last_heard == now && !final(node).membership@[id].connected,
        !old(node).membership@.contains_key(id) && !seeds@.contains(id) ==> !final(node).membership@.contains_key(id),
        final(node).kind == old(node).kind,
        final(node).dialing == old(node).dialing,
{
}

/// A round forgets those who are not connected and were not heard of for as long as the
/// view remembers them, and nobody else.
pub proof fn law_round_forgets_the_silent<C>(
    node: &mut ClusterNode<C>,
    now: u64,
    out: Vec<EndpointId>,
    id: EndpointId,
)
    requires
        call_ensures(ClusterNode::<C>::dial_round, (node, now), out),
        old(node).membership@.contains_key(id) ==> old(node).membership@[id].last_heard <= now,
    ensures
        final(node).membership@.contains_key(id) <==> old(node).membership@.contains_key(id) && (
        old(node).membership@[id].connected || now - old(node).membership@[id].last_heard
            < old(node).membership.ttl),
        final(node).membership@.contains_key(id) ==> final(node).membership@[id]
            == old(node).membership@[id],
{
}

/// A peer that shows the token is connected under the role that it names; a frontend lists
/// it as a backend, over the connection that it brought, where it is one. Nobody else is
/// touched, and nobody is dialed for it.
pub proof fn law_admitted_peers_are_taken_in<C>(
    node: &mut ClusterNode<C>,
    peer: EndpointId,
    phase: PeerPhase<C>,
    msg: Option<Control>,
    now: u64,
    r: (PeerPhase<C>, PeerStep),
    other: EndpointId,
)
    requires
        call_ensures(ClusterNode::<C>::read_control, (node, peer, phase, msg, now), r),
        phase is Waiting,
        r.0 is LetIn,
        other != peer,
    ensures
        r.1 is Go,
        r.1->Go_0@.len() == 0,
        final(node).membership@[peer].last_heard == now,
        final(node).membership@.contains_key(other) == old(node).membership@.contains_key(other),
        final(node).membership@[other] == old(node).membership@[other],
        old(node).role == MemberRole::Frontend && msg->0->role == MemberRole::Backend
            ==> final(node).kind.table().contains_key(peer) && final(node).kind.table()[peer].conn
            == phase->Waiting_0,
        !(old(node).role == MemberRole::Frontend && msg->0->role == MemberRole::Backend)
            ==> final(node).kind.table() == old(node).kind.table(),
        final(node).kind.table().contains_key(other) == old(node).kind.table().contains_key(other),
        final(node).kind.table()[other] == old(node).kind.table()[other],
        final(node).dialing == old(node).dialing,
{
}

/// What a peer tells of its capacity changes no other backend and no member.
pub proof fn law_told_capacity_changes_nothing_else<C>(
    node: &mut ClusterNode<C>,
    peer: EndpointId,
    cap: CapacitySnapshot,
    now: u64,
    r: (PeerPhase<C>, PeerStep),
    other: EndpointId,
)
    requires
        call_ensures(
            ClusterNode::<C>::read_control,
            (node, peer, PeerPhase::<C>::LetIn, Some(Control::Capacity(cap)), now),
            r,
        ),
        other != peer,
    ensures
        r.1 is Go,
        r.1->Go_0@.len() == 0,
        final(node).kind.table().contains_key(peer) == old(node).kind.table().contains_key(peer),
        old(node).kind.table().contains_key(peer) ==> final(node).kind.table()[peer].last_capacity
            == now && final(node).kind.table()[peer].conn == old(node).kind.table()[peer].conn,
        final(node).kind.table().contains_key(other) == old(node).kind.table().contains_key(other),
        old(node).kind.table().contains_key(other) ==> final(node).kind.table()[other]
            == old(node).kind.table()[other],
        final(node).membership == old(node).membership,
        final(node).dialing == old(node).dialing,
{
}

/// A connection that closes takes its own peer off, and no other.
pub proof fn law_closed_connection_is_one_peer<C>(
    node: &mut ClusterNode<C>,
    peer: EndpointId,
    now: u64,
    other: EndpointId,
)
    requires
        call_ensures(ClusterNode::<C>::connection_closed, (node, peer, now), ()),
        other != peer,
    ensures
        old(node).membership@.contains_key(peer) ==> final(node).membership@[peer].role
            == old(node).membership@[peer].role,
        final(node).membership@.contains_key(other) == old(node).membership@.contains_key(other),
        final(node).membership@[other] == old(node).membership@[other],
        final(node).kind.table().contains_key(other) == old(node).kind.table().contains_key(other),
        old(node).kind.table().contains_key(other) ==> final(node).kind.table()[other]
            == old(node).kind.table()[other],
        final(node).dialing == old(node).dialing,
{
}

/// Whatever happens to a node, it keeps its id, its role and its token.
pub proof fn law_nodes_stay_themselves<C>(
    node: &mut ClusterNode<C>,
    peer: EndpointId,
    phase: PeerPhase<C>,
    msg: Option<Control>,
    now: u64,
    r: (PeerPhase<C>, PeerStep),
    out: Vec<EndpointId>,
)
    requires
        call_ensures(ClusterNode::<C>::read_control, (node, peer, phase, msg, now), r)
            || call_ensures(ClusterNode::<C>::connection_closed, (node, peer, now), ())
            || call_ensures(ClusterNode::<C>::dial_round, (node, now), out),
    ensures
        final(node).id == old(node).id,
        final(node).role == old(node).role,
        final(node).token == old(node).token,
        final(node).membership.self_id == old(node).membership.self_id,
        final(node).membership.ttl == old(node).membership.ttl,
{
}

/// Of some targets exactly those are dialed that a dial is wanted to, each once.
pub proof fn law_wanted_targets_are_dialed<C>(
    node: &mut ClusterNode<C>,
    targets: &Vec<EndpointId>,
    out: Vec<EndpointId>,
    t: EndpointId,
)
    requires
        call_ensures(ClusterNode::<C>::dial_all, (node, targets), out),
    ensures
        out@.contains(t) <==> {
            &&& targets@.contains(t)
            &&& t != old(node).id
            &&& old(node).role == MemberRole::Backend || old(node).id.before(t)
            &&& !(old(node).membership@.contains_key(t) && old(node).membership@[t].connected)
            &&& !old(node).dialing@.contains_key(t)
        },
        out@.no_duplicates(),
        final(node).dialing@.contains_key(t) <==> old(node).dialing@.contains_key(t) || out@.contains(t),
        final(node).membership == old(node).membership,
        final(node).kind == old(node).kind,
{
    link::lemma_picked(*old(node), targets@);
}

/// A new map binds nothing, and a copy binds what its original does.
pub proof fn law_copies_bind_the_same(empty: StringMap, m: StringMap, copy: StringMap, k: Seq<char>)
    requires
        call_ensures(StringMap::new, (), empty),
        call_ensures(StringMap::copy, (&m,), copy),
    ensures
        !empty@.contains_key(k),
        copy@.contains_key(k) == m@.contains_key(k),
        m@.contains_key(k) ==> copy@[k] == m@[k],
{
}

}
