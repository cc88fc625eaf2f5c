//! The frontend's live view of backends, built from announcements.
//!
//! A cache, not a source of truth: entries arrive by announcement, are refreshed by
//! each one, and are evicted either on withdrawal or after a time to live (a few
//! missed announce intervals).
//!
//! Times are nanoseconds of a clock that never runs backwards.

use crate::ids::EndpointId;
use crate::membership;
use crate::table;
use crate::table::{Key, Kind, Table};
use vstd::prelude::*;

verus! {

/// How often backends announce themselves: five seconds.
pub const ANNOUNCE_INTERVAL: u64 = 5_000_000_000;

/// A backend not heard from in this long is dropped (about three missed announces):
/// sixteen seconds.
pub const ROSTER_TTL: u64 = 16_000_000_000;

/// How to reach an endpoint: its id, and addresses that are carried along unread.
pub struct EndpointAddr<A> {
    pub id: EndpointId,
    pub addrs: A,
}

/// What is known of one backend.
pub struct Entry<A> {
    pub addr: EndpointAddr<A>,
    pub epoch: u64,
    pub last_seen: u64,
}

/// A backend known to the frontend.
pub struct Backend<'a, A> {
    pub id: EndpointId,
    pub addr: &'a EndpointAddr<A>,
    pub epoch: u64,
    /// Nanoseconds since it was last heard from.
    pub age: u64,
}

/// The roster of live backends.
pub struct Roster<A> {
    pub entries: Table<EndpointId, Entry<A>>,
}

impl<A> View for Roster<A> {
    type V = Map<EndpointId, Entry<A>>;

    open spec fn view(&self) -> Map<EndpointId, Entry<A>> {
        self.entries@
    }
}

/// The roster after an announcement: one with an epoch older than the known one is
/// ignored, any other is recorded.
pub open spec fn announced<A>(
    m: Map<EndpointId, Entry<A>>,
    addr: EndpointAddr<A>,
    epoch: u64,
    now: u64,
) -> Map<EndpointId, Entry<A>> {
    if m.contains_key(addr.id) && epoch < m[addr.id].epoch {
        m
    } else {
        m.insert(addr.id, Entry { addr, epoch, last_seen: now })
    }
}

/// Whether an entry is dropped at `now`.
pub open spec fn expired<A>(e: Entry<A>, now: u64) -> bool {
    membership::elapsed(now, e.last_seen) > ROSTER_TTL
}

/// Whether each backend is listed under the id of its address.
pub open spec fn under_own_id<A>(m: Map<EndpointId, Entry<A>>) -> bool {
    forall|id: EndpointId| m.contains_key(id) ==> (#[trigger] m[id]).addr.id == id
}

struct ExpiredEntry {
    now: u64,
}

impl<A> Kind<Entry<A>> for ExpiredEntry {
    closed spec fn covers(&self, e: Entry<A>) -> bool {
        expired(e, self.now)
    }

    fn test(&self, e: &Entry<A>) -> (r: bool) {
        membership::since(self.now, e.last_seen) > ROSTER_TTL
    }
}

impl<A> Roster<A> {
    /// Each backend is listed once, under the id of its address.
    pub open spec fn wf(&self) -> bool {
        &&& self.entries.wf()
        &&& under_own_id(self@)
    }

    pub fn new() -> (r: Self)
        ensures
            r.wf(),
            r@ == Map::<EndpointId, Entry<A>>::empty(),
    {
        Roster { entries: Table::new() }
    }

    /// Records (or refreshes) a backend from an announcement. A stale announcement, one
    /// with an epoch older than what is already known, is ignored.
    pub fn upsert(&mut self, addr: EndpointAddr<A>, epoch: u64, now: u64)
        requires
            old(self).wf(),
        ensures
            final(self).wf(),
            final(self)@ == announced(old(self)@, addr, epoch, now),
    {
        let id = addr.id;
        let stale = match self.entries.get(&id) {
            Some(existing) => epoch < existing.epoch,
            None => false,
        };
        if !stale {
            self.entries.insert(id, Entry { addr, epoch, last_seen: now });
            assert forall|x: EndpointId| self@.contains_key(x) implies (#[trigger] self@[x]).addr.id
                == x by {
                if x != id {
                    assert(old(self)@[x].addr.id == x);
                }
            }
        }
    }

    /// Removes a backend (graceful withdrawal). Returns whether it was present.
    pub fn remove(&mut self, id: &EndpointId) -> (r: bool)
        requires
            old(self).wf(),
        ensures
            final(self).wf(),
            final(self)@ == old(self)@.remove(*id),
            r == old(self)@.contains_key(*id),
    {
        let gone = self.entries.remove(id);
        assert forall|x: EndpointId| self@.contains_key(x) implies (#[trigger] self@[x]).addr.id
            == x by {
            assert(old(self)@[x].addr.id == x);
        }
        gone.is_some()
    }

    /// Evicts entries not seen within the time to live. Returns the ids evicted.
    pub fn sweep(&mut self, now: u64) -> (dead: Vec<EndpointId>)
        requires
            old(self).wf(),
        ensures
            final(self).wf(),
            dead@.no_duplicates(),
            forall|id: EndpointId| #[trigger]
                dead@.contains(id) <==> old(self)@.contains_key(id) && expired(old(self)@[id], now),
            final(self)@ == old(self)@.remove_keys(dead@.to_set()),
    {
        let dead = self.entries.ids_where(ExpiredEntry { now });
        self.entries.remove_all(&dead);
        assert forall|x: EndpointId| self@.contains_key(x) implies (#[trigger] self@[x]).addr.id
            == x by {
            assert(old(self)@[x].addr.id == x);
        }
        dead
    }

    /// The current live backends, each once.
    pub fn snapshot(&self, now: u64) -> (v: Vec<Backend<A>>)
        requires
            self.wf(),
        ensures
            self@.dom().finite(),
            v@.len() == self@.len(),
            forall|i: int|
                0 <= i < v@.len() ==> {
                    let b = #[trigger] v@[i];
                    &&& self@.contains_key(b.id)
                    &&& *b.addr == self@[b.id].addr
                    &&& b.epoch == self@[b.id].epoch
                    &&& b.age == membership::elapsed(now, self@[b.id].last_seen)
                },
            forall|i: int, j: int| 0 <= i < j < v@.len() ==> (#[trigger] v@[i]).id != (#[trigger] v@[j]).id,
            forall|id: EndpointId| #[trigger]
                self@.contains_key(id) ==> exists|i: int| 0 <= i < v@.len() && (#[trigger] v@[i]).id == id,
    {
        let ghost s = self.entries.entries@;
        proof {
            table::lemma_len(s);
        }
        let mut v: Vec<Backend<A>> = Vec::new();
        let mut i: usize = 0;
        while i < self.entries.entries.len()
            invariant
                self.wf(),
                s == self.entries.entries@,
                i <= s.len(),
                v@.len() == i,
                forall|k: int|
                    0 <= k < i ==> {
                        let b = #[trigger] v@[k];
                        &&& b.id == s[k].0
                        &&& *b.addr == s[k].1.addr
                        &&& b.epoch == s[k].1.epoch
                        &&& b.age == membership::elapsed(now, s[k].1.last_seen)
                    },
            decreases s.len() - i,
        {
            let e = &self.entries.entries[i].1;
            proof {
                table::lemma_entry(s, i as int);
                assert(self@[s[i as int].0].addr.id == s[i as int].0);
            }
            v.push(
                Backend {
                    id: e.addr.id,
                    addr: &e.addr,
                    epoch: e.epoch,
                    age: membership::since(now, e.last_seen),
                },
            );
            i = i + 1;
        }
        proof {
            assert forall|k: int| 0 <= k < v@.len() implies {
                let b = #[trigger] v@[k];
                &&& self@.contains_key(b.id)
                &&& *b.addr == self@[b.id].addr
                &&& b.epoch == self@[b.id].epoch
                &&& b.age == membership::elapsed(now, self@[b.id].last_seen)
            } by {
                table::lemma_entry(s, k);
            }
            assert forall|a: int, b: int| 0 <= a < b < v@.len() implies (#[trigger] v@[a]).id != (
            #[trigger] v@[b]).id by {
                assert(s[a].0.name() != s[b].0.name());
            }
            assert forall|id: EndpointId| #[trigger] self@.contains_key(id) implies exists|k: int|
                0 <= k < v@.len() && (#[trigger] v@[k]).id == id by {
                let k = table::lemma_key(s, id);
                assert(v@[k].id == id);
            }
        }
        v
    }

    pub fn len(&self) -> (n: usize)
        requires
            self.wf(),
        ensures
            self@.dom().finite(),
            n == self@.len(),
    {
        self.entries.len()
    }

    pub fn is_empty(&self) -> (r: bool)
        requires
            self.wf(),
        ensures
            r == (self@ == Map::<EndpointId, Entry<A>>::empty()),
    {
        let r = self.entries.entries.len() == 0;
        proof {
            let s = self.entries.entries@;
            if s.len() > 0 {
                table::lemma_entry(s, 0);
            } else {
                assert(self@ =~= Map::<EndpointId, Entry<A>>::empty());
            }
        }
        r
    }
}

/// The epoch known of a backend never goes back, whatever is announced.
pub proof fn law_epochs_never_go_back<A>(
    m: Map<EndpointId, Entry<A>>,
    addr: EndpointAddr<A>,
    epoch: u64,
    now: u64,
    id: EndpointId,
)
    requires
        m.contains_key(id),
    ensures
        announced(m, addr, epoch, now).contains_key(id),
        announced(m, addr, epoch, now)[id].epoch >= m[id].epoch,
{
}

/// A backend that announces itself is live for the whole time to live.
pub proof fn law_announced_backend_is_live<A>(
    m: Map<EndpointId, Entry<A>>,
    addr: EndpointAddr<A>,
    epoch: u64,
    now: u64,
    later: u64,
)
    requires
        !m.contains_key(addr.id) || epoch >= m[addr.id].epoch,
        later <= now + ROSTER_TTL,
    ensures
        announced(m, addr, epoch, now).contains_key(addr.id),
        announced(m, addr, epoch, now)[addr.id].epoch == epoch,
        !expired(announced(m, addr, epoch, now)[addr.id], later),
{
}

/// The roster after a run of announcements, each with its address, its epoch and the time
/// at which it was heard.
pub open spec fn all_announced<A>(
    m: Map<EndpointId, Entry<A>>,
    run: Seq<(EndpointAddr<A>, u64, u64)>,
) -> Map<EndpointId, Entry<A>>
    decreases run.len(),
{
    if run.len() == 0 {
        m
    } else {
        announced(all_announced(m, run.drop_last()), run.last().0, run.last().1, run.last().2)
    }
}

proof fn lemma_epoch_bound<A>(
    m: Map<EndpointId, Entry<A>>,
    run: Seq<(EndpointAddr<A>, u64, u64)>,
    id: EndpointId,
    epoch: u64,
)
    requires
        m.contains_key(id) ==> m[id].epoch <= epoch,
        forall|j: int| 0 <= j < run.len() && (#[trigger] run[j]).0.id == id ==> run[j].1 <= epoch,
    ensures
        all_announced(m, run).contains_key(id) ==> all_announced(m, run)[id].epoch <= epoch,
    decreases run.len(),
{
    if run.len() > 0 {
        let t = run.drop_last();
        assert forall|j: int| 0 <= j < t.len() && (#[trigger] t[j]).0.id == id implies t[j].1
            <= epoch by {
            assert(t[j] == run[j]);
        }
        lemma_epoch_bound(m, t, id, epoch);
        assert(run[run.len() - 1] == run.last());
    }
}

/// The newest announcement counts: after any run of announcements, in whatever order they
/// were heard and whatever others are among them, the entry of a backend is that of its
/// last announcement with the greatest epoch.
pub proof fn law_newest_announcement_counts<A>(
    m: Map<EndpointId, Entry<A>>,
    run: Seq<(EndpointAddr<A>, u64, u64)>,
    i: int,
)
    requires
        0 <= i < run.len(),
        forall|j: int|
            0 <= j < run.len() && (#[trigger] run[j]).0.id == run[i].0.id ==> run[j].1 <= run[i].1
                && (j > i ==> run[j].1 < run[i].1),
        m.contains_key(run[i].0.id) ==> m[run[i].0.id].epoch <= run[i].1,
    ensures
        all_announced(m, run).contains_key(run[i].0.id),
        all_announced(m, run)[run[i].0.id] == (Entry {
            addr: run[i].0,
            epoch: run[i].1,
            last_seen: run[i].2,
        }),
    decreases run.len(),
{
    let id = run[i].0.id;
    let t = run.drop_last();
    assert forall|j: int| 0 <= j < t.len() && (#[trigger] t[j]).0.id == id implies t[j].1
        <= run[i].1 && (j > i ==> t[j].1 < run[i].1) by {
        assert(t[j] == run[j]);
    }
    if i == run.len() - 1 {
        lemma_epoch_bound(m, t, id, run[i].1);
    } else {
        assert(t[i] == run[i]);
        law_newest_announcement_counts(m, t, i);
        assert(run[run.len() - 1] == run.last());
    }
}

}
