//! The frontend's table of connected backends: the connection to forward over plus
//! the latest capacity each pushed. A backend is present exactly while its connection
//! is open.
//!
//! Times are nanoseconds of a clock that never runs backwards. A connection is carried
//! along unread.

use crate::capacity;
use crate::capacity::{score, BidSpec, CapacitySnapshot, Score};
use crate::ids::EndpointId;
use crate::membership;
use crate::table;
use crate::table::{Key, Kind, Table};
use vstd::prelude::*;

verus! {

/// One connected backend.
pub struct Backend<C> {
    pub conn: C,
    pub capacity: Option<CapacitySnapshot>,
    pub last_capacity: u64,
}

/// The connected backends.
pub struct BackendTable<C> {
    pub inner: Table<EndpointId, Backend<C>>,
}

/// A backend that bids for a sandbox.
pub struct Candidate<'a, C> {
    pub id: EndpointId,
    pub conn: &'a C,
    pub score: Score,
    /// The place among candidates of equal headroom, by running VMs and CPU load
    /// together: higher is better.
    pub rank: i64,
}

/// One line of the table as it is shown.
pub struct BackendRow {
    pub id: EndpointId,
    /// Whether the forward path is direct.
    pub direct: bool,
    pub capacity: Option<CapacitySnapshot>,
    pub age_ms: u64,
}

impl<C> View for BackendTable<C> {
    type V = Map<EndpointId, Backend<C>>;

    open spec fn view(&self) -> Map<EndpointId, Backend<C>> {
        self.inner@
    }
}

/// Whether a backend bids for `spec`: it pushed a capacity, and by that one it does.
pub open spec fn offers<C>(b: Backend<C>, spec: BidSpec) -> bool {
    b.capacity is Some && capacity::bids(b.capacity->0, spec)
}

/// The table after a capacity arrived; one for an unknown backend is dropped.
pub open spec fn with_capacity<C>(
    m: Map<EndpointId, Backend<C>>,
    id: EndpointId,
    cap: CapacitySnapshot,
    now: u64,
) -> Map<EndpointId, Backend<C>> {
    if m.contains_key(id) {
        m.insert(id, Backend { conn: m[id].conn, capacity: Some(cap), last_capacity: now })
    } else {
        m
    }
}

/// The table after a backend connected: nothing is known of its capacity yet.
pub open spec fn with_backend<C>(
    m: Map<EndpointId, Backend<C>>,
    id: EndpointId,
    conn: C,
    now: u64,
) -> Map<EndpointId, Backend<C>> {
    m.insert(id, Backend { conn, capacity: None, last_capacity: now })
}

/// Whether `a` may stand before `b`: it has more headroom, or as much and the higher
/// rank, or as much, the same rank and no more running VMs.
pub open spec fn no_worse<C>(a: Candidate<C>, b: Candidate<C>) -> bool {
    ||| a.score.mem_headroom > b.score.mem_headroom
    ||| a.score.mem_headroom == b.score.mem_headroom && a.rank > b.rank
    ||| a.score.mem_headroom == b.score.mem_headroom && a.rank == b.rank && a.score.vm_penalty
        <= b.score.vm_penalty
}

/// Whether candidates stand best first.
pub open spec fn best_first<C>(v: Seq<Candidate<C>>) -> bool {
    forall|i: int, j: int| 0 <= i < j < v.len() ==> no_worse(#[trigger] v[i], #[trigger] v[j])
}

/// Whether one of the candidates is `id`.
pub open spec fn lists<C>(v: Seq<Candidate<C>>, id: EndpointId) -> bool {
    exists|i: int| 0 <= i < v.len() && (#[trigger] v[i]).id == id
}

struct Offering {
    spec: BidSpec,
}

impl<C> Kind<Backend<C>> for Offering {
    closed spec fn covers(&self, b: Backend<C>) -> bool {
        offers(b, self.spec)
    }

    fn test(&self, b: &Backend<C>) -> (r: bool) {
        match &b.capacity {
            Some(cap) => match score(cap, &self.spec) {
                Some(_) => true,
                None => false,
            },
            None => false,
        }
    }
}

proof fn lemma_insert_lists<C>(v: Seq<Candidate<C>>, k: int, x: Candidate<C>, id: EndpointId)
    requires
        0 <= k <= v.len(),
    ensures
        lists(v.insert(k, x), id) <==> lists(v, id) || x.id == id,
{
    let w = v.insert(k, x);
    if lists(v, id) {
        let i = choose|i: int| 0 <= i < v.len() && (#[trigger] v[i]).id == id;
        if i < k {
            assert(w[i] == v[i]);
        } else {
            assert(w[i + 1] == v[i]);
        }
    }
    if lists(w, id) {
        let i = choose|i: int| 0 <= i < w.len() && (#[trigger] w[i]).id == id;
        if i < k {
            assert(w[i] == v[i]);
        } else if i > k {
            assert(w[i] == v[i - 1]);
        }
    }
    assert(w[k] == x);
}

impl<C> BackendTable<C> {
    /// No backend is listed twice.
    pub open spec fn wf(&self) -> bool {
        self.inner.wf()
    }

    pub fn new() -> (t: Self)
        ensures
            t.wf(),
            t@ == Map::<EndpointId, Backend<C>>::empty(),
    {
        BackendTable { inner: Table::new() }
    }

    /// A backend connected.
    pub fn register(&mut self, id: EndpointId, conn: C, now: u64)
        requires
            old(self).wf(),
        ensures
            final(self).wf(),
            final(self)@ == with_backend(old(self)@, id, conn, now),
    {
        self.inner.insert(id, Backend { conn, capacity: None, last_capacity: now });
    }

    /// A backend pushed its capacity.
    pub fn update_capacity(&mut self, id: EndpointId, cap: CapacitySnapshot, now: u64)
        requires
            old(self).wf(),
        ensures
            final(self).wf(),
            final(self)@ == with_capacity(old(self)@, id, cap, now),
    {
        match self.inner.remove(&id) {
            Some(b) => {
                self.inner.insert(
                    id,
                    Backend { conn: b.conn, capacity: Some(cap), last_capacity: now },
                );
            },
            None => {},
        }
        assert(self@ =~= with_capacity(old(self)@, id, cap, now));
    }

    /// A backend is gone. Returns whether it was listed.
    pub fn remove(&mut self, id: &EndpointId) -> (r: bool)
        requires
            old(self).wf(),
        ensures
            final(self).wf(),
            final(self)@ == old(self)@.remove(*id),
            r == old(self)@.contains_key(*id),
    {
        match self.inner.remove(id) {
            Some(_) => true,
            None => false,
        }
    }

    /// The connection to forward over.
    pub fn forward_conn(&self, id: &EndpointId) -> (r: Option<&C>)
        requires
            self.wf(),
        ensures
            match r {
                Some(c) => self@.contains_key(*id) && *c == self@[*id].conn,
                None => !self@.contains_key(*id),
            },
    {
        match self.inner.get(id) {
            Some(b) => Some(&b.conn),
            None => None,
        }
    }

    /// Best backends for `spec` by capacity score, best first. Skips backends with no
    /// capacity yet or that can't fit. `rank` maps a score to the place of its penalties
    /// for running VMs and CPU load, which decides between candidates of equal headroom.
    pub fn best_for<F: Fn(Score) -> i64>(&self, spec: BidSpec, rank: F) -> (v: Vec<Candidate<C>>)
        requires
            self.wf(),
            forall|s: Score| call_requires(rank, (s,)),
        ensures
            best_first(v@),
            forall|i: int|
                0 <= i < v@.len() ==> {
                    let c = #[trigger] v@[i];
                    &&& self@.contains_key(c.id)
                    &&& offers(self@[c.id], spec)
                    &&& *c.conn == self@[c.id].conn
                    &&& c.score == capacity::scored(self@[c.id].capacity->0, spec)
                    &&& call_ensures(rank, (c.score,), c.rank)
                },
            forall|i: int, j: int| 0 <= i < j < v@.len() ==> (#[trigger] v@[i]).id != (#[trigger] v@[j]).id,
            forall|id: EndpointId| #[trigger]
                lists(v@, id) <==> self@.contains_key(id) && offers(self@[id], spec),
    {
        let ids = self.inner.ids_where(Offering { spec });
        let mut v: Vec<Candidate<C>> = Vec::new();
        let mut i: usize = 0;
        while i < ids.len()
            invariant
                self.wf(),
                forall|s: Score| call_requires(rank, (s,)),
                i <= ids@.len(),
                ids@.no_duplicates(),
                forall|id: EndpointId| #[trigger]
                    ids@.contains(id) <==> self@.contains_key(id) && offers(self@[id], spec),
                best_first(v@),
                forall|k: int|
                    0 <= k < v@.len() ==> {
                        let c = #[trigger] v@[k];
                        &&& self@.contains_key(c.id)
                        &&& offers(self@[c.id], spec)
                        &&& *c.conn == self@[c.id].conn
                        &&& c.score == capacity::scored(self@[c.id].capacity->0, spec)
                        &&& call_ensures(rank, (c.score,), c.rank)
                    },
                forall|a: int, b: int|
                    0 <= a < b < v@.len() ==> (#[trigger] v@[a]).id != (#[trigger] v@[b]).id,
                forall|id: EndpointId| #[trigger]
                    lists(v@, id) <==> ids@.take(i as int).contains(id),
            decreases ids@.len() - i,
        {
            let id = ids[i];
            assert(ids@.contains(id));
            let ghost t = ids@.take(i as int);
            let ghost was = v@;
            proof {
                assert(ids@.take(i + 1) =~= t.push(id));
                assert(!t.contains(id)) by {
                    if t.contains(id) {
                        let k = choose|k: int| 0 <= k < t.len() && t[k] == id;
                        assert(ids@[k] == ids@[i as int]);
                    }
                }
                assert(!lists(was, id));
            }
            if let Some(b) = self.inner.get(&id) {
                if let Some(cap) = &b.capacity {
                    if let Some(s) = score(cap, &spec) {
                        let r: i64 = rank(s);
                        let c = Candidate { id, conn: &b.conn, score: s, rank: r };
                        let mut k: usize = 0;
                        while k < v.len() && (v[k].score.mem_headroom > s.mem_headroom || (
                        v[k].score.mem_headroom == s.mem_headroom && (v[k].rank > r || (v[k].rank
                            == r && v[k].score.vm_penalty <= s.vm_penalty))))
                            invariant
                                k <= v@.len(),
                                v@ == was,
                                c.score == s,
                                c.rank == r,
                                forall|a: int| 0 <= a < k ==> no_worse(#[trigger] v@[a], c),
                            decreases v@.len() - k,
                        {
                            k = k + 1;
                        }
                        v.insert(k, c);
                        proof {
                            assert(v@ == was.insert(k as int, c));
                            assert forall|a: int, b2: int|
                                0 <= a < b2 < v@.len() implies no_worse(
                                #[trigger] v@[a],
                                #[trigger] v@[b2],
                            ) && v@[a].id != v@[b2].id by {
                                let x = if a < k {
                                    a
                                } else {
                                    a - 1
                                };
                                let y = if b2 < k {
                                    b2
                                } else {
                                    b2 - 1
                                };
                                if a != k {
                                    assert(v@[a] == was[x]);
                                    assert(lists(was, was[x].id));
                                }
                                if b2 != k {
                                    assert(v@[b2] == was[y]);
                                    assert(lists(was, was[y].id));
                                }
                                if a == k {
                                    assert(!no_worse(was[k as int], c));
                                    if y > k {
                                        assert(no_worse(was[k as int], was[y]));
                                    }
                                }
                            }
                            assert forall|a: int| 0 <= a < v@.len() implies {
                                let c2 = #[trigger] v@[a];
                                &&& self@.contains_key(c2.id)
                                &&& offers(self@[c2.id], spec)
                                &&& *c2.conn == self@[c2.id].conn
                                &&& c2.score == capacity::scored(self@[c2.id].capacity->0, spec)
                                &&& call_ensures(rank, (c2.score,), c2.rank)
                            } by {
                                if a < k {
                                    assert(v@[a] == was[a]);
                                } else if a > k {
                                    assert(v@[a] == was[a - 1]);
                                }
                            }
                            assert forall|x: EndpointId| #[trigger]
                                lists(v@, x) <==> t.push(id).contains(x) by {
                                lemma_insert_lists(was, k as int, c, x);
                                table::lemma_push_contains(t, id, x);
                                assert(lists(was, x) <==> t.contains(x));
                            }
                        }
                    }
                }
            }
            i = i + 1;
        }
        assert(ids@.take(i as int) =~= ids@);
        v
    }

    /// Every backend with its connection, each once.
    pub fn all(&self) -> (v: Vec<(EndpointId, &C)>)
        requires
            self.wf(),
        ensures
            self@.dom().finite(),
            v@.len() == self@.len(),
            forall|i: int|
                0 <= i < v@.len() ==> self@.contains_key((#[trigger] v@[i]).0) && *v@[i].1
                    == self@[v@[i].0].conn,
            forall|i: int, j: int| 0 <= i < j < v@.len() ==> (#[trigger] v@[i]).0 != (#[trigger] v@[j]).0,
            forall|id: EndpointId| #[trigger]
                self@.contains_key(id) ==> exists|i: int| 0 <= i < v@.len() && (#[trigger] v@[i]).0 == id,
    {
        let ghost s = self.inner.entries@;
        proof {
            table::lemma_len(s);
        }
        let mut v: Vec<(EndpointId, &C)> = Vec::new();
        let mut i: usize = 0;
        while i < self.inner.entries.len()
            invariant
                s == self.inner.entries@,
                i <= s.len(),
                v@.len() == i,
                forall|k: int| 0 <= k < i ==> (#[trigger] v@[k]).0 == s[k].0 && *v@[k].1 == s[k].1.conn,
            decreases s.len() - i,
        {
            v.push((self.inner.entries[i].0, &self.inner.entries[i].1.conn));
            i = i + 1;
        }
        proof {
            assert forall|k: int| 0 <= k < v@.len() implies self@.contains_key((#[trigger] v@[k]).0)
                && *v@[k].1 == self@[v@[k].0].conn by {
                table::lemma_entry(s, k);
            }
            assert forall|a: int, b: int| 0 <= a < b < v@.len() implies (#[trigger] v@[a]).0 != (
            #[trigger] v@[b]).0 by {
                assert(s[a].0.name() != s[b].0.name());
            }
            assert forall|id: EndpointId| #[trigger] self@.contains_key(id) implies exists|k: int|
                0 <= k < v@.len() && (#[trigger] v@[k]).0 == id by {
                let k = table::lemma_key(s, id);
                assert(v@[k].0 == id);
            }
        }
        v
    }

    /// The table as it is shown, each backend once. `direct` tells whether a
    /// connection's forward path is direct.
    pub fn snapshot<F: Fn(&C) -> bool>(&self, direct: F, now: u64) -> (v: Vec<BackendRow>)
        requires
            self.wf(),
            forall|c: &C| call_requires(direct, (c,)),
        ensures
            self@.dom().finite(),
            v@.len() == self@.len(),
            forall|i: int|
                0 <= i < v@.len() ==> {
                    let r = #[trigger] v@[i];
                    &&& self@.contains_key(r.id)
                    &&& call_ensures(direct, (&self@[r.id].conn,), r.direct)
                    &&& r.capacity == self@[r.id].capacity
                    &&& r.age_ms == membership::elapsed(now, self@[r.id].last_capacity) / 1_000_000
                },
            forall|i: int, j: int| 0 <= i < j < v@.len() ==> (#[trigger] v@[i]).id != (#[trigger] v@[j]).id,
            forall|id: EndpointId| #[trigger]
                self@.contains_key(id) ==> exists|i: int| 0 <= i < v@.len() && (#[trigger] v@[i]).id == id,
    {
        let ghost s = self.inner.entries@;
        proof {
            table::lemma_len(s);
        }
        let mut v: Vec<BackendRow> = Vec::new();
        let mut i: usize = 0;
        while i < self.inner.entries.len()
            invariant
                forall|c: &C| call_requires(direct, (c,)),
                s == self.inner.entries@,
                i <= s.len(),
                v@.len() == i,
                forall|k: int|
                    0 <= k < i ==> {
                        let r = #[trigger] v@[k];
                        &&& r.id == s[k].0
                        &&& call_ensures(direct, (&s[k].1.conn,), r.direct)
                        &&& r.capacity == s[k].1.capacity
                        &&& r.age_ms == membership::elapsed(now, s[k].1.last_capacity) / 1_000_000
                    },
            decreases s.len() - i,
        {
            let b = &self.inner.entries[i].1;
            let d = direct(&b.conn);
            v.push(
                BackendRow {
                    id: self.inner.entries[i].0,
                    direct: d,
                    capacity: b.capacity,
                    age_ms: membership::since(now, b.last_capacity) / 1_000_000,
                },
            );
            i = i + 1;
        }
        proof {
            assert forall|k: int| 0 <= k < v@.len() implies {
                let r = #[trigger] v@[k];
                &&& self@.contains_key(r.id)
                &&& call_ensures(direct, (&self@[r.id].conn,), r.direct)
                &&& r.capacity == self@[r.id].capacity
                &&& r.age_ms == membership::elapsed(now, self@[r.id].last_capacity) / 1_000_000
            } by {
                table::lemma_entry(s, k);
            }
            assert forall|a: int, b: int| 0 <= a < b < v@.len() implies (#[trigger] v@[a]).id != (
            #[trigger] v@[b]).id by {
                assert(s[a].0.name() != s[b].0.name());
            }
            assert forall|id: EndpointId| #[trigger] self@.contains_key(id) implies exists|k: int|
                0 <= k < v@.len() && (#[trigger] v@[k]).id == id by {
                let k = table::lemma_key(s, id);
                assert(v@[k].id == id);
            }
        }
        v
    }

    pub fn len(&self) -> (n: usize)
        requires
            self.wf(),
        ensures
            self@.dom().finite(),
            n == self@.len(),
    {
        self.inner.len()
    }
}

/// A backend that just connected is not placed on before it pushed a capacity.
pub proof fn law_no_placement_before_capacity<C>(
    m: Map<EndpointId, Backend<C>>,
    id: EndpointId,
    conn: C,
    now: u64,
    spec: BidSpec,
)
    ensures
        !offers(with_backend(m, id, conn, now)[id], spec),
{
}

/// The latest capacity decides, for a backend that is connected; one that is not stays
/// out of the table.
pub proof fn law_latest_capacity_decides<C>(
    m: Map<EndpointId, Backend<C>>,
    id: EndpointId,
    cap: CapacitySnapshot,
    now: u64,
    spec: BidSpec,
)
    ensures
        with_capacity(m, id, cap, now).contains_key(id) == m.contains_key(id),
        m.contains_key(id) ==> with_capacity(m, id, cap, now)[id].conn == m[id].conn,
        m.contains_key(id) ==> offers(with_capacity(m, id, cap, now)[id], spec) == capacity::bids(
            cap,
            spec,
        ),
{
}

/// A backend is listed exactly while it is connected: from the moment it registers to
/// the moment it is removed, whatever capacities it pushes in between.
pub proof fn law_listed_while_connected<C>(
    m: Map<EndpointId, Backend<C>>,
    id: EndpointId,
    conn: C,
    cap: CapacitySnapshot,
    then: u64,
    now: u64,
)
    ensures
        with_backend(m, id, conn, then).contains_key(id),
        with_capacity(with_backend(m, id, conn, then), id, cap, now).contains_key(id),
        with_capacity(with_backend(m, id, conn, then), id, cap, now)[id].conn == conn,
        !with_backend(m, id, conn, then).remove(id).contains_key(id),
{
}

/// Best first keeps to the order of the scores: where the rank never prefers more running
/// VMs at equal headroom and load, no candidate outranks one before it.
pub proof fn law_best_first_follows_the_scores<C>(v: Seq<Candidate<C>>)
    requires
        best_first(v),
        forall|i: int, j: int|
            0 <= i < v.len() && 0 <= j < v.len() && (#[trigger] v[i]).score.mem_headroom == (
            #[trigger] v[j]).score.mem_headroom && v[i].score.outranks(v[j].score) ==> v[i].rank
                >= v[j].rank,
    ensures
        forall|i: int, j: int|
            0 <= i < j < v.len() ==> !(#[trigger] v[j]).score.outranks((#[trigger] v[i]).score),
{
    assert forall|i: int, j: int| 0 <= i < j < v.len() implies !(#[trigger] v[j]).score.outranks(
        (#[trigger] v[i]).score,
    ) by {
        assert(no_worse(v[i], v[j]));
    }
}

}
