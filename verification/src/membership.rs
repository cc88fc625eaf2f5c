//! The cluster's dynamic membership view.
//!
//! Every node keeps a set of members, each with its role. The view spreads over the
//! cluster connections (each side periodically announces what it can vouch for), and
//! the dialer keeps a connection to every frontend the view names.
//!
//! Liveness lives in the connections, not here: a node announces only itself plus
//! members it is directly connected to, so a departed member stops being announced
//! once its links drop and then ages out of everyone's view.
//!
//! Times are nanoseconds of a clock that never runs backwards.

use crate::ids::EndpointId;
use crate::table;
use crate::table::{Key, Kind, Table};
use vstd::prelude::*;

verus! {

#[derive(Clone, Copy, PartialEq, Eq, Structural, Debug)]
pub enum MemberRole {
    Frontend,
    Backend,
}

/// What is known of one member.
#[derive(Clone, Copy, PartialEq, Eq, Structural, Debug)]
pub struct Member {
    pub role: MemberRole,
    pub last_heard: u64,
    pub connected: bool,
}

/// How long an unconnected member is remembered: one minute.
pub const MEMBER_TTL: u64 = 60_000_000_000;

/// The time from `then` to `now`; none where `then` lies ahead.
pub open spec fn elapsed(now: u64, then: u64) -> u64 {
    if now >= then {
        (now - then) as u64
    } else {
        0
    }
}

/// The time from `then` to `now`.
pub fn since(now: u64, then: u64) -> (d: u64)
    ensures
        d == elapsed(now, then),
{
    if now >= then {
        now - then
    } else {
        0
    }
}

/// The membership view of one node.
pub struct Membership {
    pub self_id: EndpointId,
    pub self_role: MemberRole,
    pub ttl: u64,
    pub inner: Table<EndpointId, Member>,
}

impl View for Membership {
    type V = Map<EndpointId, Member>;

    open spec fn view(&self) -> Map<EndpointId, Member> {
        self.inner@
    }
}

/// The view after one announced entry: a known member is heard of again, under the
/// role now announced; an unknown one is added, not connected; the node itself is
/// passed over.
pub open spec fn merge_one(
    m: Map<EndpointId, Member>,
    self_id: EndpointId,
    e: (EndpointId, MemberRole),
    now: u64,
) -> Map<EndpointId, Member> {
    if e.0 == self_id {
        m
    } else {
        m.insert(
            e.0,
            Member {
                role: e.1,
                last_heard: now,
                connected: m.contains_key(e.0) && m[e.0].connected,
            },
        )
    }
}

/// The view after all announced entries, taken in order.
pub open spec fn merged(
    m: Map<EndpointId, Member>,
    self_id: EndpointId,
    es: Seq<(EndpointId, MemberRole)>,
    now: u64,
) -> Map<EndpointId, Member>
    decreases es.len(),
{
    if es.len() == 0 {
        m
    } else {
        merge_one(merged(m, self_id, es.drop_last(), now), self_id, es.last(), now)
    }
}

/// Whether the `i`-th entry is the first to name its id.
pub open spec fn first_mention(es: Seq<(EndpointId, MemberRole)>, i: int) -> bool {
    0 <= i < es.len() && forall|j: int| 0 <= j < i ==> (#[trigger] es[j]).0 != es[i].0
}

/// The frontends among the announced entries that the view had not seen: those whose
/// first mention is as a frontend, in the order of these mentions.
pub open spec fn fresh_frontends(
    m: Map<EndpointId, Member>,
    self_id: EndpointId,
    es: Seq<(EndpointId, MemberRole)>,
) -> Seq<EndpointId>
    decreases es.len(),
{
    if es.len() == 0 {
        seq![]
    } else {
        let before = fresh_frontends(m, self_id, es.drop_last());
        let e = es.last();
        if e.0 != self_id && e.1 == MemberRole::Frontend && !m.contains_key(e.0) && first_mention(
            es,
            es.len() - 1,
        ) {
            before.push(e.0)
        } else {
            before
        }
    }
}

/// The view once a connection to `id` is up.
pub open spec fn linked(
    m: Map<EndpointId, Member>,
    id: EndpointId,
    role: MemberRole,
    now: u64,
) -> Map<EndpointId, Member> {
    m.insert(id, Member { role, last_heard: now, connected: true })
}

/// The view once the connection to `id` is gone: a member that was never listed stays
/// unlisted.
pub open spec fn unlinked(m: Map<EndpointId, Member>, id: EndpointId, now: u64) -> Map<
    EndpointId,
    Member,
> {
    if m.contains_key(id) {
        m.insert(id, Member { role: m[id].role, last_heard: now, connected: false })
    } else {
        m
    }
}

/// The view after a sweep: the members that stay.
pub open spec fn swept(m: Map<EndpointId, Member>, now: u64, ttl: u64) -> Map<EndpointId, Member> {
    m.restrict(Set::new(|id: EndpointId| m.contains_key(id) && stays(m[id], now, ttl)))
}

/// Whether a member stays in the view at `now`.
pub open spec fn stays(e: Member, now: u64, ttl: u64) -> bool {
    e.connected || elapsed(now, e.last_heard) < ttl
}

/// One line of the view as it is shown: id, role, whether connected, age in
/// milliseconds.
pub open spec fn shown(id: EndpointId, e: Member, now: u64) -> (EndpointId, MemberRole, bool, u64) {
    (id, e.role, e.connected, elapsed(now, e.last_heard) / 1_000_000)
}

struct ConnectedMember;

impl Kind<Member> for ConnectedMember {
    closed spec fn covers(&self, e: Member) -> bool {
        e.connected
    }

    fn test(&self, e: &Member) -> (r: bool) {
        e.connected
    }
}

struct FrontendMember;

impl Kind<Member> for FrontendMember {
    closed spec fn covers(&self, e: Member) -> bool {
        e.role == MemberRole::Frontend
    }

    fn test(&self, e: &Member) -> (r: bool) {
        e.role == MemberRole::Frontend
    }
}

struct DepartedMember {
    now: u64,
    ttl: u64,
}

impl Kind<Member> for DepartedMember {
    closed spec fn covers(&self, e: Member) -> bool {
        !stays(e, self.now, self.ttl)
    }

    fn test(&self, e: &Member) -> (r: bool) {
        !(e.connected || since(self.now, e.last_heard) < self.ttl)
    }
}

/// Members ripple outward: a merge learns every announced member but the node itself,
/// and forgets none.
pub proof fn law_merge_learns_every_member(
    m: Map<EndpointId, Member>,
    self_id: EndpointId,
    es: Seq<(EndpointId, MemberRole)>,
    now: u64,
    id: EndpointId,
)
    ensures
        merged(m, self_id, es, now).contains_key(id) <==> m.contains_key(id) || (id != self_id
            && exists|i: int| 0 <= i < es.len() && (#[trigger] es[i]).0 == id),
    decreases es.len(),
{
    if es.len() > 0 {
        let t = es.drop_last();
        law_merge_learns_every_member(m, self_id, t, now, id);
        if exists|i: int| 0 <= i < es.len() && (#[trigger] es[i]).0 == id {
            let i = choose|i: int| 0 <= i < es.len() && (#[trigger] es[i]).0 == id;
            if i < t.len() {
                assert(t[i].0 == id);
            }
        }
        if exists|i: int| 0 <= i < t.len() && (#[trigger] t[i]).0 == id {
            let i = choose|i: int| 0 <= i < t.len() && (#[trigger] t[i]).0 == id;
            assert(es[i].0 == id);
        }
        assert(es[es.len() - 1] == es.last());
    }
}

impl Membership {
    /// No member is listed twice.
    pub open spec fn wf(&self) -> bool {
        self.inner.wf()
    }

    /// Whether only the members changed, not the node itself.
    pub open spec fn same_node(&self, other: &Membership) -> bool {
        self.self_id == other.self_id && self.self_role == other.self_role && self.ttl == other.ttl
    }

    pub fn new(self_id: EndpointId, self_role: MemberRole) -> (m: Membership)
        ensures
            m.wf(),
            m@ == Map::<EndpointId, Member>::empty(),
            m.self_id == self_id,
            m.self_role == self_role,
            m.ttl == MEMBER_TTL,
    {
        Membership { self_id, self_role, ttl: MEMBER_TTL, inner: Table::new() }
    }

    /// Seeds the view with bootstrap frontend ids: those not known yet are added as
    /// unconnected frontends.
    pub fn seed_frontends(&mut self, ids: &Vec<EndpointId>, now: u64)
        requires
            old(self).wf(),
        ensures
            final(self).wf(),
            final(self).same_node(old(self)),
            forall|id: EndpointId| #[trigger]
                final(self)@.contains_key(id) <==> old(self)@.contains_key(id) || (ids@.contains(id)
                    && id != old(self).self_id),
            forall|id: EndpointId|
                final(self)@.contains_key(id) ==> #[trigger] final(self)@[id] == (if old(
                    self,
                )@.contains_key(id) {
                    old(self)@[id]
                } else {
                    (Member { role: MemberRole::Frontend, last_heard: now, connected: false })
                }),
    {
        let ghost start = self@;
        let ghost fresh = Member { role: MemberRole::Frontend, last_heard: now, connected: false };
        let mut i: usize = 0;
        while i < ids.len()
            invariant
                self.wf(),
                self.same_node(old(self)),
                start == old(self)@,
                fresh == (Member { role: MemberRole::Frontend, last_heard: now, connected: false }),
                i <= ids@.len(),
                forall|id: EndpointId| #[trigger]
                    self@.contains_key(id) <==> start.contains_key(id) || (ids@.take(
                        i as int,
                    ).contains(id) && id != self.self_id),
                forall|id: EndpointId|
                    self@.contains_key(id) ==> #[trigger] self@[id] == (if start.contains_key(id) {
                        start[id]
                    } else {
                        fresh
                    }),
            decreases ids@.len() - i,
        {
            let id = ids[i];
            let ghost was = self@;
            if id != self.self_id && !self.inner.contains(&id) {
                self.inner.insert(
                    id,
                    Member { role: MemberRole::Frontend, last_heard: now, connected: false },
                );
            }
            proof {
                assert(ids@.take(i + 1) =~= ids@.take(i as int).push(id));
                assert forall|x: EndpointId| #[trigger]
                    self@.contains_key(x) <==> start.contains_key(x) || (ids@.take(i + 1).contains(
                        x,
                    ) && x != self.self_id) by {
                    let t = ids@.take(i as int);
                    if t.push(id).contains(x) {
                        let k = choose|k: int| 0 <= k < t.push(id).len() && t.push(id)[k] == x;
                        if k < t.len() {
                            assert(t[k] == x);
                        }
                    }
                    if t.contains(x) {
                        let k = choose|k: int| 0 <= k < t.len() && t[k] == x;
                        assert(t.push(id)[k] == x);
                    }
                    assert(t.push(id)[t.len() as int] == id);
                }
            }
            i = i + 1;
        }
        assert(ids@.take(i as int) =~= ids@);
    }

    /// Merges a peer's announced view; returns the frontend ids not seen before, so
    /// that the dialer can start connecting to them.
    pub fn merge(&mut self, entries: &Vec<(EndpointId, MemberRole)>, now: u64) -> (fresh: Vec<
        EndpointId,
    >)
        requires
            old(self).wf(),
        ensures
            final(self).wf(),
            final(self).same_node(old(self)),
            final(self)@ == merged(old(self)@, old(self).self_id, entries@, now),
            fresh@ == fresh_frontends(old(self)@, old(self).self_id, entries@),
    {
        let mut fresh: Vec<EndpointId> = Vec::new();
        let ghost start = self@;
        let ghost me = self.self_id;
        let mut i: usize = 0;
        while i < entries.len()
            invariant
                self.wf(),
                self.same_node(old(self)),
                start == old(self)@,
                me == old(self).self_id,
                i <= entries@.len(),
                self@ == merged(start, me, entries@.take(i as int), now),
                fresh@ == fresh_frontends(start, me, entries@.take(i as int)),
            decreases entries@.len() - i,
        {
            let (id, role) = entries[i];
            let ghost es = entries@.take(i + 1);
            proof {
                assert(es.drop_last() =~= entries@.take(i as int));
                assert(es.last() == (id, role));
                law_merge_learns_every_member(start, me, entries@.take(i as int), now, id);
                if id != me {
                    assert(first_mention(es, i as int) <==> !(exists|j: int|
                        0 <= j < i && (#[trigger] entries@.take(i as int)[j]).0 == id)) by {
                        assert forall|j: int| 0 <= j < i implies es[j] == #[trigger] entries@.take(
                            i as int,
                        )[j] by {
                        }
                    }
                }
            }
            if id != self.self_id {
                let known = self.inner.get(&id);
                match known {
                    Some(e) => {
                        let connected = e.connected;
                        self.inner.insert(id, Member { role, last_heard: now, connected });
                    },
                    None => {
                        self.inner.insert(id, Member { role, last_heard: now, connected: false });
                        if role == MemberRole::Frontend {
                            fresh.push(id);
                        }
                    },
                }
            }
            i = i + 1;
        }
        assert(entries@.take(i as int) =~= entries@);
        fresh
    }

    /// A connection to `id` is up, and `id` said which role it has.
    pub fn connected(&mut self, id: EndpointId, role: MemberRole, now: u64)
        requires
            old(self).wf(),
        ensures
            final(self).wf(),
            final(self).same_node(old(self)),
            final(self)@ == linked(old(self)@, id, role, now),
    {
        self.inner.insert(id, Member { role, last_heard: now, connected: true });
    }

    pub fn is_connected(&self, id: EndpointId) -> (r: bool)
        requires
            self.wf(),
        ensures
            r == (self@.contains_key(id) && self@[id].connected),
    {
        match self.inner.get(&id) {
            Some(e) => e.connected,
            None => false,
        }
    }

    /// The connection to `id` is gone.
    pub fn disconnected(&mut self, id: EndpointId, now: u64)
        requires
            old(self).wf(),
        ensures
            final(self).wf(),
            final(self).same_node(old(self)),
            final(self)@ == unlinked(old(self)@, id, now),
    {
        match self.inner.get(&id) {
            Some(e) => {
                let role = e.role;
                self.inner.insert(id, Member { role, last_heard: now, connected: false });
            },
            None => {},
        }
    }

    /// What to announce: the node itself, then every member it is directly connected
    /// to, each once.
    pub fn announced_view(&self) -> (v: Vec<(EndpointId, MemberRole)>)
        requires
            self.wf(),
        ensures
            v@.len() > 0,
            v@[0] == (self.self_id, self.self_role),
            v@.skip(1).no_duplicates(),
            forall|id: EndpointId, role: MemberRole| #[trigger]
                v@.skip(1).contains((id, role)) <==> self@.contains_key(id) && self@[id].connected
                    && self@[id].role == role,
    {
        let ids = self.inner.ids_where(ConnectedMember);
        let mut v: Vec<(EndpointId, MemberRole)> = Vec::new();
        v.push((self.self_id, self.self_role));
        let mut i: usize = 0;
        while i < ids.len()
            invariant
                self.wf(),
                i <= ids@.len(),
                ids@.no_duplicates(),
                forall|id: EndpointId| #[trigger]
                    ids@.contains(id) <==> self@.contains_key(id) && self@[id].connected,
                v@.len() == i + 1,
                v@[0] == (self.self_id, self.self_role),
                forall|k: int| 0 <= k < i ==> #[trigger] v@[k + 1] == (ids@[k], self@[ids@[k]].role),
            decreases ids@.len() - i,
        {
            let id = ids[i];
            assert(ids@.contains(id));
            if let Some(e) = self.inner.get(&id) {
                v.push((id, e.role));
            }
            i = i + 1;
        }
        proof {
            let w = v@.skip(1);
            assert forall|k: int| 0 <= k < w.len() implies #[trigger] w[k] == (
                ids@[k],
                self@[ids@[k]].role,
            ) by {
                assert(w[k] == v@[k + 1]);
            }
            assert forall|id: EndpointId, role: MemberRole| #[trigger]
                w.contains((id, role)) <==> self@.contains_key(id) && self@[id].connected
                    && self@[id].role == role by {
                if w.contains((id, role)) {
                    let k = choose|k: int| 0 <= k < w.len() && w[k] == (id, role);
                    assert(ids@.contains(ids@[k]));
                }
                if self@.contains_key(id) && self@[id].connected && self@[id].role == role {
                    assert(ids@.contains(id));
                    let k = choose|k: int| 0 <= k < ids@.len() && ids@[k] == id;
                    assert(w[k] == (id, role));
                }
            }
        }
        v
    }

    /// Known frontends (except the node itself): the set the dialer maintains links
    /// to, each once.
    pub fn frontends(&self) -> (r: Vec<EndpointId>)
        requires
            self.wf(),
        ensures
            r@.no_duplicates(),
            forall|id: EndpointId| #[trigger]
                r@.contains(id) <==> self@.contains_key(id) && self@[id].role
                    == MemberRole::Frontend && id != self.self_id,
    {
        let ids = self.inner.ids_where(FrontendMember);
        let mut r: Vec<EndpointId> = Vec::new();
        let mut i: usize = 0;
        while i < ids.len()
            invariant
                i <= ids@.len(),
                ids@.no_duplicates(),
                r@.no_duplicates(),
                forall|id: EndpointId| #[trigger]
                    r@.contains(id) <==> ids@.take(i as int).contains(id) && id != self.self_id,
            decreases ids@.len() - i,
        {
            let id = ids[i];
            let ghost was = r@;
            let ghost t = ids@.take(i as int);
            if id != self.self_id {
                r.push(id);
            }
            proof {
                assert(ids@.take(i + 1) =~= t.push(id));
                assert(!t.contains(id)) by {
                    if t.contains(id) {
                        let k = choose|k: int| 0 <= k < t.len() && t[k] == id;
                        assert(ids@[k] == ids@[i as int]);
                    }
                }
                assert(!was.contains(id));
                assert forall|x: EndpointId| #[trigger]
                    r@.contains(x) <==> t.push(id).contains(x) && x != self.self_id by {
                    table::lemma_push_contains(t, id, x);
                    table::lemma_push_contains(was, id, x);
                    assert(was.contains(x) <==> t.contains(x) && x != self.self_id);
                }
            }
            i = i + 1;
        }
        assert(ids@.take(i as int) =~= ids@);
        r
    }

    /// Evicts unconnected members not heard from within the time to live.
    pub fn sweep(&mut self, now: u64)
        requires
            old(self).wf(),
        ensures
            final(self).wf(),
            final(self).same_node(old(self)),
            final(self)@ == swept(old(self)@, now, old(self).ttl),
    {
        let ttl = self.ttl;
        let dead = self.inner.ids_where(DepartedMember { now, ttl });
        self.inner.remove_all(&dead);
        proof {
            assert forall|id: EndpointId|
                dead@.to_set().contains(id) <==> old(self)@.contains_key(id) && !stays(
                    old(self)@[id],
                    now,
                    ttl,
                ) by {
                assert(dead@.contains(id) <==> old(self)@.contains_key(id) && !stays(
                    old(self)@[id],
                    now,
                    ttl,
                ));
            }
            assert(self@ =~= swept(old(self)@, now, ttl));
        }
    }

    /// The view as it is shown: every member once, then the node itself.
    pub fn snapshot(&self, now: u64) -> (v: Vec<(EndpointId, MemberRole, bool, u64)>)
        requires
            self.wf(),
        ensures
            self@.dom().finite(),
            v@.len() == self@.len() + 1,
            v@.last() == (self.self_id, self.self_role, true, 0u64),
            forall|i: int|
                0 <= i < self@.len() ==> self@.contains_key((#[trigger] v@[i]).0) && v@[i] == shown(
                    v@[i].0,
                    self@[v@[i].0],
                    now,
                ),
            forall|i: int, j: int|
                0 <= i < j < self@.len() ==> (#[trigger] v@[i]).0 != (#[trigger] v@[j]).0,
            forall|id: EndpointId| #[trigger]
                self@.contains_key(id) ==> exists|i: int|
                    0 <= i < self@.len() && (#[trigger] v@[i]).0 == id,
    {
        proof {
            table::lemma_len(self.inner.entries@);
        }
        let ghost s = self.inner.entries@;
        let mut v: Vec<(EndpointId, MemberRole, bool, u64)> = Vec::new();
        let mut i: usize = 0;
        while i < self.inner.entries.len()
            invariant
                s == self.inner.entries@,
                i <= s.len(),
                v@.len() == i,
                forall|k: int| 0 <= k < i ==> #[trigger] v@[k] == shown(s[k].0, s[k].1, now),
            decreases s.len() - i,
        {
            let id = self.inner.entries[i].0;
            let e = self.inner.entries[i].1;
            v.push((id, e.role, e.connected, since(now, e.last_heard) / 1_000_000));
            i = i + 1;
        }
        v.push((self.self_id, self.self_role, true, 0));
        proof {
            assert forall|k: int| 0 <= k < s.len() implies self@.contains_key((#[trigger] v@[k]).0)
                && v@[k] == shown(v@[k].0, self@[v@[k].0], now) by {
                table::lemma_entry(s, k);
            }
            assert forall|a: int, b: int| 0 <= a < b < s.len() implies (#[trigger] v@[a]).0 != (
            #[trigger] v@[b]).0 by {
                assert(s[a].0.name() != s[b].0.name());
            }
            assert forall|id: EndpointId| #[trigger] self@.contains_key(id) implies exists|k: int|
                0 <= k < s.len() && (#[trigger] v@[k]).0 == id by {
                let k = table::lemma_key(s, id);
                assert(v@[k].0 == id);
            }
        }
        v
    }
}

// ---- laws ----

/// An announcement never connects or disconnects anyone, and never removes anyone.
pub proof fn law_merge_keeps_connections(
    m: Map<EndpointId, Member>,
    me: EndpointId,
    es: Seq<(EndpointId, MemberRole)>,
    now: u64,
    id: EndpointId,
)
    ensures
        m.contains_key(id) ==> merged(m, me, es, now).contains_key(id),
        merged(m, me, es, now).contains_key(id) ==> merged(m, me, es, now)[id].connected == (
        m.contains_key(id) && m[id].connected),
    decreases es.len(),
{
    if es.len() > 0 {
        law_merge_keeps_connections(m, me, es.drop_last(), now, id);
    }
}

/// A node never lists itself on the word of a peer.
pub proof fn law_merge_passes_over_self(
    m: Map<EndpointId, Member>,
    me: EndpointId,
    es: Seq<(EndpointId, MemberRole)>,
    now: u64,
)
    ensures
        merged(m, me, es, now).contains_key(me) == m.contains_key(me),
        m.contains_key(me) ==> merged(m, me, es, now)[me] == m[me],
        !fresh_frontends(m, me, es).contains(me),
    decreases es.len(),
{
    if es.len() > 0 {
        law_merge_passes_over_self(m, me, es.drop_last(), now);
        table::lemma_push_contains(fresh_frontends(m, me, es.drop_last()), es.last().0, me);
    }
}

/// What a merge reports as fresh was unknown before, is known after, and is reported
/// once.
pub proof fn law_fresh_frontends_are_new(
    m: Map<EndpointId, Member>,
    me: EndpointId,
    es: Seq<(EndpointId, MemberRole)>,
    now: u64,
)
    ensures
        fresh_frontends(m, me, es).no_duplicates(),
        forall|id: EndpointId| #[trigger]
            fresh_frontends(m, me, es).contains(id) ==> !m.contains_key(id) && merged(
                m,
                me,
                es,
                now,
            ).contains_key(id),
    decreases es.len(),
{
    if es.len() > 0 {
        let t = es.drop_last();
        let n = es.len() - 1;
        law_fresh_frontends_are_new(m, me, t, now);
        law_only_frontends_are_fresh(m, me, t);
        let f = fresh_frontends(m, me, t);
        let e = es.last();
        assert(es[n] == e);
        assert forall|id: EndpointId| #[trigger]
            fresh_frontends(m, me, es).contains(id) implies !m.contains_key(id) && merged(
            m,
            me,
            es,
            now,
        ).contains_key(id) by {
            table::lemma_push_contains(f, e.0, id);
            law_merge_learns_every_member(m, me, es, now, id);
            law_merge_learns_every_member(m, me, t, now, id);
        }
        if first_mention(es, n) {
            assert(!f.contains(e.0)) by {
                if f.contains(e.0) {
                    let i = choose|i: int|
                        0 <= i < t.len() && (#[trigger] t[i]).0 == e.0 && t[i].1
                            == MemberRole::Frontend;
                    assert(es[i].0 == t[i].0);
                }
            }
            assert(f.push(e.0).no_duplicates());
        }
    }
}

/// Only members that were announced as frontends are reported as fresh, so nobody
/// dials a backend.
pub proof fn law_only_frontends_are_fresh(
    m: Map<EndpointId, Member>,
    me: EndpointId,
    es: Seq<(EndpointId, MemberRole)>,
)
    ensures
        forall|id: EndpointId| #[trigger]
            fresh_frontends(m, me, es).contains(id) ==> exists|i: int|
                0 <= i < es.len() && (#[trigger] es[i]).0 == id && es[i].1 == MemberRole::Frontend,
    decreases es.len(),
{
    if es.len() > 0 {
        let t = es.drop_last();
        law_only_frontends_are_fresh(m, me, t);
        assert forall|id: EndpointId| #[trigger] fresh_frontends(m, me, es).contains(id) implies exists|
            i: int,
        |
            0 <= i < es.len() && (#[trigger] es[i]).0 == id && es[i].1 == MemberRole::Frontend by {
            table::lemma_push_contains(fresh_frontends(m, me, t), es.last().0, id);
            if fresh_frontends(m, me, t).contains(id) {
                let i = choose|i: int|
                    0 <= i < t.len() && (#[trigger] t[i]).0 == id && t[i].1 == MemberRole::Frontend;
                assert(es[i].0 == id);
            } else {
                assert(es[es.len() - 1].0 == id);
            }
        }
    }
}

proof fn lemma_nothing_fresh(
    m: Map<EndpointId, Member>,
    me: EndpointId,
    es: Seq<(EndpointId, MemberRole)>,
)
    requires
        forall|i: int| 0 <= i < es.len() && (#[trigger] es[i]).0 != me ==> m.contains_key(es[i].0),
    ensures
        fresh_frontends(m, me, es).len() == 0,
    decreases es.len(),
{
    if es.len() > 0 {
        let t = es.drop_last();
        assert forall|i: int| 0 <= i < t.len() && (#[trigger] t[i]).0 != me implies m.contains_key(
            t[i].0,
        ) by {
            assert(t[i] == es[i]);
        }
        lemma_nothing_fresh(m, me, t);
        assert(es[es.len() - 1] == es.last());
    }
}

/// An announcement heard a second time brings nothing fresh.
pub proof fn law_second_merge_brings_nothing_fresh(
    m: Map<EndpointId, Member>,
    me: EndpointId,
    es: Seq<(EndpointId, MemberRole)>,
    now: u64,
)
    ensures
        fresh_frontends(merged(m, me, es, now), me, es).len() == 0,
{
    assert forall|i: int| 0 <= i < es.len() && (#[trigger] es[i]).0 != me implies merged(
        m,
        me,
        es,
        now,
    ).contains_key(es[i].0) by {
        law_merge_learns_every_member(m, me, es, now, es[i].0);
    }
    lemma_nothing_fresh(merged(m, me, es, now), me, es);
}

/// A member whose last link dropped is announced no more, and a sweep evicts it once
/// nothing was heard of it for the time to live.
pub proof fn law_departed_members_age_out(
    m: Map<EndpointId, Member>,
    id: EndpointId,
    dropped: u64,
    now: u64,
    ttl: u64,
)
    requires
        m.contains_key(id),
        now >= dropped + ttl,
    ensures
        !unlinked(m, id, dropped)[id].connected,
        !swept(unlinked(m, id, dropped), now, ttl).contains_key(id),
{
}

/// A sweep never evicts a connected member, nor touches what it keeps.
pub proof fn law_sweep_keeps_the_connected(
    m: Map<EndpointId, Member>,
    id: EndpointId,
    now: u64,
    ttl: u64,
)
    ensures
        m.contains_key(id) && m[id].connected ==> swept(m, now, ttl).contains_key(id),
        swept(m, now, ttl).contains_key(id) ==> m.contains_key(id) && swept(m, now, ttl)[id]
            == m[id],
{
}

}
