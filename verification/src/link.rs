//! The shared cluster networking layer: what a node decides.
//!
//! A [`ClusterNode`] owns the membership view and knows which dials are in flight. It
//! runs the same control plane on every connection: a stream per direction carrying a
//! `Hello`, then membership announcements (and, from backends, capacity pushes). The
//! dialer keeps a live connection to every frontend the membership view names; new
//! members learned over any connection get dialed in turn.
//!
//! Who dials whom: a backend dials every frontend; a frontend dials the frontends with
//! a higher id than its own (so each frontend pair meshes with one connection). Nobody
//! dials a backend: the frontend reaches a backend over the connection the backend
//! brought.

use crate::backends;
use crate::backends::{Backend, BackendTable};
use crate::capacity::CapacitySnapshot;
use crate::config::LocalServe;
use crate::ids::EndpointId;
use crate::membership;
use crate::membership::{Member, MemberRole, Membership};
use crate::table;
use crate::table::Table;
use crate::text;
use crate::wire;
use crate::wire::Control;
use vstd::prelude::*;
use vstd::string::*;
use vstd::utf8::encode_utf8;

verus! {

/// How often the dialer goes through the known frontends: two seconds.
pub const DIAL_INTERVAL: u64 = 2_000_000_000;

/// Role-specific state.
pub enum NodeKind<C> {
    Frontend { backends: BackendTable<C> },
    Backend { local: LocalServe },
}

impl<C> NodeKind<C> {
    /// The role that this kind of node announces.
    pub open spec fn spec_role(&self) -> MemberRole {
        match self {
            NodeKind::Frontend { .. } => MemberRole::Frontend,
            NodeKind::Backend { .. } => MemberRole::Backend,
        }
    }

    /// The connected backends; a backend knows none.
    pub open spec fn table(&self) -> Map<EndpointId, Backend<C>> {
        match self {
            NodeKind::Frontend { backends } => backends@,
            NodeKind::Backend { .. } => Map::empty(),
        }
    }

    /// No backend is listed twice.
    pub open spec fn wf(&self) -> bool {
        match self {
            NodeKind::Frontend { backends } => backends.wf(),
            NodeKind::Backend { .. } => true,
        }
    }

    /// The role that this kind of node announces.
    pub fn role(&self) -> (r: MemberRole)
        ensures
            r == self.spec_role(),
    {
        match self {
            NodeKind::Frontend { .. } => MemberRole::Frontend,
            NodeKind::Backend { .. } => MemberRole::Backend,
        }
    }
}

/// One node of the cluster.
pub struct ClusterNode<C> {
    pub id: EndpointId,
    pub membership: Membership,
    pub kind: NodeKind<C>,
    pub token: String,
    pub role: MemberRole,
    /// The targets of the dials in flight.
    pub dialing: Table<EndpointId, ()>,
}

/// Whether a node dials `target` at all.
pub open spec fn dials(id: EndpointId, role: MemberRole, target: EndpointId) -> bool {
    target != id && (role == MemberRole::Backend || id.before(target))
}

/// Whether `token` opens a cluster of token `ours`.
pub open spec fn admits(msg: Control, ours: Seq<char>) -> bool {
    match msg {
        Control::Hello { token, .. } => token@ == ours,
        _ => false,
    }
}

/// How far a peer has come on its control stream.
pub enum PeerPhase<C> {
    /// Its first message is awaited; this is the connection it brought.
    Waiting(C),
    /// It showed the token.
    LetIn,
    /// It did not.
    Refused,
}

/// What to do after a message of a peer.
pub enum PeerStep {
    /// Dial these targets, and read on.
    Go(Vec<EndpointId>),
    /// Read no more; the connection stays until it closes.
    Stop,
    /// Close the connection.
    Close,
}

/// Whether `new` is the node `old` once it took a peer in.
pub open spec fn took_in<C>(
    old: ClusterNode<C>,
    new: ClusterNode<C>,
    peer: EndpointId,
    conn: C,
    role: MemberRole,
    now: u64,
) -> bool {
    &&& new.dialing == old.dialing
    &&& new.membership@ == membership::linked(old.membership@, peer, role, now)
    &&& old.kind is Backend ==> new.kind == old.kind
    &&& new.kind.table() == (if old.role == MemberRole::Frontend && role == MemberRole::Backend {
        backends::with_backend(old.kind.table(), peer, conn, now)
    } else {
        old.kind.table()
    })
}

/// Whether `new` is the node `old` once it folded in a message of a peer that was let
/// in, and `out` are the targets to dial.
pub open spec fn folded<C>(
    old: ClusterNode<C>,
    new: ClusterNode<C>,
    peer: EndpointId,
    msg: Control,
    now: u64,
    out: Seq<EndpointId>,
) -> bool {
    match msg {
        Control::Members(entries) => {
            let fresh = membership::fresh_frontends(old.membership@, old.id, entries@);
            &&& new.kind == old.kind
            &&& new.membership@ == membership::merged(old.membership@, old.id, entries@, now)
            &&& out.no_duplicates()
            &&& forall|t: EndpointId| #[trigger]
                out.contains(t) <==> fresh.contains(t) && old.wants(t)
            &&& new.dialing@ == started(old.dialing@, out)
        },
        Control::Capacity(cap) => {
            &&& out.len() == 0
            &&& new.membership == old.membership
            &&& new.dialing == old.dialing
            &&& old.kind is Backend ==> new.kind == old.kind
            &&& new.kind.table() == backends::with_capacity(old.kind.table(), peer, cap, now)
        },
        Control::Hello { .. } => out.len() == 0 && new == old,
    }
}

/// Whether the node `new`, the phase `next` and `step` follow from what was read of a
/// peer in `phase`; nothing is read where a message is unreadable or the stream ends.
/// A peer whose first message does not show the token is refused, and stays so.
pub open spec fn peer_follows<C>(
    old: ClusterNode<C>,
    peer: EndpointId,
    phase: PeerPhase<C>,
    msg: Option<Control>,
    now: u64,
    new: ClusterNode<C>,
    next: PeerPhase<C>,
    step: PeerStep,
) -> bool {
    match phase {
        PeerPhase::Waiting(conn) => if msg is Some && admits(msg->0, old.token@) {
            &&& took_in(old, new, peer, conn, msg->0->role, now)
            &&& next is LetIn
            &&& step is Go
            &&& step->Go_0@.len() == 0
        } else {
            new == old && next is Refused && step is Close
        },
        PeerPhase::LetIn => match msg {
            Some(m) => {
                &&& next is LetIn
                &&& step is Go
                &&& folded(old, new, peer, m, now, step->Go_0@)
            },
            None => new == old && next is LetIn && step is Stop,
        },
        PeerPhase::Refused => new == old && next is Refused && step is Close,
    }
}

/// The targets to dial, from candidates taken in order: each wanted one, once.
pub open spec fn picked<C>(node: ClusterNode<C>, targets: Seq<EndpointId>) -> Seq<EndpointId>
    decreases targets.len(),
{
    if targets.len() == 0 {
        seq![]
    } else {
        let p = picked(node, targets.drop_last());
        let t = targets.last();
        if node.wants(t) && !p.contains(t) {
            p.push(t)
        } else {
            p
        }
    }
}

/// The dials in flight once those to `targets` have started.
pub open spec fn started(d: Map<EndpointId, ()>, targets: Seq<EndpointId>) -> Map<EndpointId, ()> {
    d.union_prefer_right(Map::new(|id: EndpointId| targets.contains(id), |id: EndpointId| ()))
}

/// What is picked is wanted, each once, and every wanted candidate is picked.
pub proof fn lemma_picked<C>(node: ClusterNode<C>, targets: Seq<EndpointId>)
    ensures
        picked(node, targets).no_duplicates(),
        forall|t: EndpointId| #[trigger]
            picked(node, targets).contains(t) <==> targets.contains(t) && node.wants(t),
    decreases targets.len(),
{
    if targets.len() > 0 {
        let init = targets.drop_last();
        let x = targets.last();
        lemma_picked(node, init);
        let p = picked(node, init);
        assert(targets =~= init.push(x));
        assert forall|t: EndpointId| #[trigger]
            picked(node, targets).contains(t) <==> targets.contains(t) && node.wants(t) by {
            table::lemma_push_contains(init, x, t);
            table::lemma_push_contains(p, x, t);
            assert(p.contains(t) <==> init.contains(t) && node.wants(t));
        }
    }
}

impl<C> ClusterNode<C> {
    /// The parts agree on the node's id and role, and no table lists anything twice.
    pub open spec fn wf(&self) -> bool {
        &&& self.membership.wf()
        &&& self.membership.self_id == self.id
        &&& self.membership.self_role == self.role
        &&& self.role == self.kind.spec_role()
        &&& self.kind.wf()
        &&& self.dialing.wf()
    }

    /// Whether the node is the same one, whatever it has learned.
    pub open spec fn same_node(&self, other: &ClusterNode<C>) -> bool {
        &&& self.id == other.id
        &&& self.role == other.role
        &&& self.token == other.token
        &&& self.membership.same_node(&other.membership)
    }

    /// Whether a dial to `target` should start: the node dials it, is not connected to
    /// it, and no dial is in flight.
    pub open spec fn wants(&self, target: EndpointId) -> bool {
        &&& dials(self.id, self.role, target)
        &&& !(self.membership@.contains_key(target) && self.membership@[target].connected)
        &&& !self.dialing@.contains_key(target)
    }

    /// Builds the node. Does not start networking.
    pub fn build(id: EndpointId, kind: NodeKind<C>, token: String) -> (node: Self)
        requires
            kind.wf(),
        ensures
            node.wf(),
            node.id == id,
            node.kind == kind,
            node.token == token,
            node.membership@ == Map::<EndpointId, Member>::empty(),
            node.membership.ttl == membership::MEMBER_TTL,
            node.dialing@ == Map::<EndpointId, ()>::empty(),
    {
        let role = kind.role();
        ClusterNode {
            id,
            membership: Membership::new(id, role),
            kind,
            token,
            role,
            dialing: Table::new(),
        }
    }

    pub fn endpoint_id(&self) -> (id: EndpointId)
        ensures
            id == self.id,
    {
        self.id
    }

    /// Seeds the view with the frontends to dial first.
    pub fn start(&mut self, seeds: &Vec<EndpointId>, now: u64)
        requires
            old(self).wf(),
        ensures
            final(self).wf(),
            final(self).same_node(old(self)),
            final(self).kind == old(self).kind,
            final(self).dialing == old(self).dialing,
            forall|id: EndpointId| #[trigger]
                final(self).membership@.contains_key(id) <==> old(self).membership@.contains_key(id)
                    || (seeds@.contains(id) && id != old(self).id),
            forall|id: EndpointId|
                final(self).membership@.contains_key(id) ==> #[trigger] final(self).membership@[id]
                    == (if old(self).membership@.contains_key(id) {
                    old(self).membership@[id]
                } else {
                    (Member { role: MemberRole::Frontend, last_heard: now, connected: false })
                }),
    {
        self.membership.seed_frontends(seeds, now);
    }

    /// Starts a dial to `target` where one is wanted. Returns whether the caller has to
    /// make it.
    pub fn maybe_dial(&mut self, target: EndpointId) -> (r: bool)
        requires
            old(self).wf(),
        ensures
            final(self).wf(),
            final(self).same_node(old(self)),
            final(self).kind == old(self).kind,
            final(self).membership == old(self).membership,
            r == old(self).wants(target),
            final(self).dialing@ == (if r {
                old(self).dialing@.insert(target, ())
            } else {
                old(self).dialing@
            }),
    {
        if target == self.id || self.membership.is_connected(target) {
            return false;
        }
        if self.role == MemberRole::Frontend && !self.id.is_before(&target) {
            return false;
        }
        if self.dialing.contains(&target) {
            return false;
        }
        self.dialing.insert(target, ());
        true
    }

    /// A dial to `target` is over: it failed, or its connection has closed.
    pub fn dial_done(&mut self, target: EndpointId)
        requires
            old(self).wf(),
        ensures
            final(self).wf(),
            final(self).same_node(old(self)),
            final(self).kind == old(self).kind,
            final(self).membership == old(self).membership,
            final(self).dialing@ == old(self).dialing@.remove(target),
    {
        let _ = self.dialing.remove(&target);
    }

    /// Starts the dials that are wanted among `targets`, in order.
    pub fn dial_all(&mut self, targets: &Vec<EndpointId>) -> (out: Vec<EndpointId>)
        requires
            old(self).wf(),
        ensures
            final(self).wf(),
            final(self).same_node(old(self)),
            final(self).kind == old(self).kind,
            final(self).membership == old(self).membership,
            out@ == picked(*old(self), targets@),
            final(self).dialing@ == started(old(self).dialing@, out@),
    {
        let mut out: Vec<EndpointId> = Vec::new();
        let mut i: usize = 0;
        assert(started(old(self).dialing@, out@) =~= self.dialing@);
        while i < targets.len()
            invariant
                old(self).wf(),
                self.wf(),
                self.same_node(old(self)),
                self.kind == old(self).kind,
                self.membership == old(self).membership,
                i <= targets@.len(),
                out@ == picked(*old(self), targets@.take(i as int)),
                self.dialing@ == started(old(self).dialing@, out@),
            decreases targets@.len() - i,
        {
            let t = targets[i];
            let ghost was = out@;
            assert(targets@.take(i + 1).drop_last() =~= targets@.take(i as int));
            if self.maybe_dial(t) {
                out.push(t);
                proof {
                    assert forall|x: EndpointId| #[trigger]
                        out@.contains(x) <==> was.contains(x) || x == t by {
                        table::lemma_push_contains(was, t, x);
                    }
                    assert(self.dialing@ =~= started(old(self).dialing@, out@));
                }
            }
            i = i + 1;
        }
        assert(targets@.take(i as int) =~= targets@);
        out
    }

    /// One round of the dialer: starts a dial to every known frontend that wants one,
    /// then forgets the members that are long gone. Returns the targets to dial.
    pub fn dial_round(&mut self, now: u64) -> (out: Vec<EndpointId>)
        requires
            old(self).wf(),
        ensures
            final(self).wf(),
            final(self).same_node(old(self)),
            final(self).kind == old(self).kind,
            out@.no_duplicates(),
            forall|t: EndpointId| #[trigger]
                out@.contains(t) <==> old(self).wants(t) && old(self).membership@.contains_key(t)
                    && old(self).membership@[t].role == MemberRole::Frontend,
            final(self).dialing@ == started(old(self).dialing@, out@),
            final(self).membership@ == membership::swept(
                old(self).membership@,
                now,
                old(self).membership.ttl,
            ),
    {
        let targets = self.membership.frontends();
        proof {
            lemma_picked(*old(self), targets@);
        }
        let out = self.dial_all(&targets);
        self.membership.sweep(now);
        out
    }

    /// The first message of the outbound control stream.
    pub fn hello(&self) -> (m: Control)
        ensures
            m is Hello,
            m->role == self.role,
            m->token@ == self.token@,
    {
        Control::Hello { role: self.role, token: self.token.as_str().to_owned() }
    }

    /// What follows at each interval: the membership view, then the capacity, if this
    /// is a backend.
    pub fn announcements(&self, capacity: CapacitySnapshot) -> (v: Vec<Control>)
        requires
            self.wf(),
        ensures
            v@.len() == (if self.role == MemberRole::Backend {
                2int
            } else {
                1int
            }),
            v@[0] is Members,
            ({
                let m = v@[0]->Members_0@;
                &&& m.len() > 0
                &&& m[0] == (self.id, self.role)
                &&& m.skip(1).no_duplicates()
                &&& forall|id: EndpointId, role: MemberRole| #[trigger]
                    m.skip(1).contains((id, role)) <==> self.membership@.contains_key(id)
                        && self.membership@[id].connected && self.membership@[id].role == role
            }),
            self.role == MemberRole::Backend ==> v@[1] == Control::Capacity(capacity),
    {
        let mut v: Vec<Control> = Vec::new();
        v.push(Control::Members(self.membership.announced_view()));
        match &self.kind {
            NodeKind::Backend { .. } => {
                v.push(Control::Capacity(capacity));
            },
            NodeKind::Frontend { .. } => {},
        }
        v
    }

    /// The peer's first message: verifies the token, and takes the peer in.
    fn read_hello(&mut self, peer: EndpointId, conn: C, msg: &Control, now: u64) -> (r: bool)
        requires
            old(self).wf(),
        ensures
            final(self).wf(),
            final(self).same_node(old(self)),
            r == admits(*msg, old(self).token@),
            !r ==> *final(self) == *old(self),
            r ==> took_in(*old(self), *final(self), peer, conn, msg->role, now),
    {
        match msg {
            Control::Hello { role, token } => {
                if !text::same_str(token.as_str(), self.token.as_str()) {
                    return false;
                }
                self.membership.connected(peer, *role, now);
                if *role == MemberRole::Backend {
                    match &mut self.kind {
                        NodeKind::Frontend { backends } => {
                            backends.register(peer, conn, now);
                        },
                        NodeKind::Backend { .. } => {},
                    }
                }
                true
            },
            _ => false,
        }
    }

    /// Folds in the membership view or the capacity of a peer that was let in. Returns
    /// the targets to dial.
    fn fold(&mut self, peer: EndpointId, msg: &Control, now: u64) -> (out: Vec<EndpointId>)
        requires
            old(self).wf(),
        ensures
            final(self).wf(),
            final(self).same_node(old(self)),
            folded(*old(self), *final(self), peer, *msg, now, out@),
    {
        match msg {
            Control::Members(entries) => {
                let fresh = self.membership.merge(entries, now);
                let ghost mid = *self;
                let out = self.dial_all(&fresh);
                proof {
                    lemma_picked(mid, fresh@);
                    assert forall|t: EndpointId| fresh@.contains(t) implies (mid.wants(t)
                        <==> old(self).wants(t)) by {
                        let m = old(self).membership@;
                        membership::law_merge_keeps_connections(m, self.id, entries@, now, t);
                    }
                }
                out
            },
            Control::Capacity(cap) => {
                match &mut self.kind {
                    NodeKind::Frontend { backends } => {
                        backends.update_capacity(peer, *cap, now);
                    },
                    NodeKind::Backend { .. } => {},
                }
                Vec::new()
            },
            Control::Hello { .. } => Vec::new(),
        }
    }

    /// What was read off a peer's control stream: the first message has to show the
    /// token; after that, membership and capacity are folded in. A peer with a bad or
    /// absent token is not let in, none of its later messages is applied, and it leaves
    /// no trace.
    pub fn read_control(
        &mut self,
        peer: EndpointId,
        phase: PeerPhase<C>,
        msg: Option<Control>,
        now: u64,
    ) -> (r: (PeerPhase<C>, PeerStep))
        requires
            old(self).wf(),
        ensures
            final(self).wf(),
            final(self).same_node(old(self)),
            peer_follows(*old(self), peer, phase, msg, now, *final(self), r.0, r.1),
    {
        match phase {
            PeerPhase::Waiting(conn) => {
                let good = match &msg {
                    Some(m) => self.read_hello(peer, conn, m, now),
                    None => false,
                };
                if good {
                    (PeerPhase::LetIn, PeerStep::Go(Vec::new()))
                } else {
                    (PeerPhase::Refused, PeerStep::Close)
                }
            },
            PeerPhase::LetIn => match &msg {
                Some(m) => (PeerPhase::LetIn, PeerStep::Go(self.fold(peer, m, now))),
                None => (PeerPhase::LetIn, PeerStep::Stop),
            },
            PeerPhase::Refused => (PeerPhase::Refused, PeerStep::Close),
        }
    }

    /// The connection to `peer` has closed.
    pub fn connection_closed(&mut self, peer: EndpointId, now: u64)
        requires
            old(self).wf(),
        ensures
            final(self).wf(),
            final(self).same_node(old(self)),
            final(self).dialing == old(self).dialing,
            final(self).membership@ == membership::unlinked(old(self).membership@, peer, now),
            final(self).kind.table() == old(self).kind.table().remove(peer),
            old(self).kind is Backend ==> final(self).kind == old(self).kind,
    {
        self.membership.disconnected(peer, now);
        match &mut self.kind {
            NodeKind::Frontend { backends } => {
                let _ = backends.remove(&peer);
            },
            NodeKind::Backend { .. } => {},
        }
        assert(self.kind.table() =~= old(self).kind.table().remove(peer));
    }
}

/// Each pair of frontends meshes with one connection: exactly one of the two dials the
/// other.
pub proof fn law_one_link_per_frontend_pair(a: EndpointId, b: EndpointId)
    requires
        a != b,
    ensures
        dials(a, MemberRole::Frontend, b) != dials(b, MemberRole::Frontend, a),
{
}

/// A backend dials every frontend.
pub proof fn law_backend_dials_every_frontend(b: EndpointId, f: EndpointId)
    requires
        b != f,
    ensures
        dials(b, MemberRole::Backend, f),
{
}

/// A peer that was let in is dialed no more while it stays connected.
pub proof fn law_connected_peer_is_not_dialed<C>(
    node: ClusterNode<C>,
    before: Map<EndpointId, Member>,
    peer: EndpointId,
    role: MemberRole,
    now: u64,
)
    requires
        node.membership@ == membership::linked(before, peer, role, now),
    ensures
        !node.wants(peer),
{
    assert(node.membership@[peer].connected);
}

/// Nodes that share the cluster secret let each other in, whatever their roles.
pub proof fn law_shared_secret_lets_in(secret: Seq<char>, hello: Control, ours: Seq<char>)
    requires
        hello is Hello,
        hello->token@ == wire::token_text(wire::blake3_digest(encode_utf8(secret))),
        ours == wire::token_text(wire::blake3_digest(encode_utf8(secret))),
    ensures
        admits(hello, ours),
{
}

/// A peer whose first message does not show the token leaves no trace: it is not taken
/// in, and neither is anything that it sends later.
pub proof fn law_refused_peer_leaves_no_trace<C>(
    node: ClusterNode<C>,
    peer: EndpointId,
    conn: C,
    first: Option<Control>,
    then: u64,
    mid: ClusterNode<C>,
    phase: PeerPhase<C>,
    step: PeerStep,
    later: Option<Control>,
    now: u64,
    last: ClusterNode<C>,
    end: PeerPhase<C>,
    answer: PeerStep,
)
    requires
        first is Some ==> !admits(first->0, node.token@),
        peer_follows(node, peer, PeerPhase::Waiting(conn), first, then, mid, phase, step),
        peer_follows(mid, peer, phase, later, now, last, end, answer),
    ensures
        mid == node,
        last == node,
        step is Close,
        answer is Close,
        end is Refused,
{
}

}
