//! The frontend's authoritative record of the sandboxes it has placed.
//!
//! A sandbox is the unit a client asks for; placing one is what decides which
//! backend runs it. The sandbox's id doubles as the machine name on that backend, so
//! this map, from sandbox id to owning backend, is all the frontend needs to route
//! every follow-up request to the right place.
//!
//! It is authoritative but not the only source of truth: a lookup miss is recovered by
//! probing the backends, so a lost map self-heals rather than misrouting.

use crate::ids::EndpointId;
use crate::table;
use crate::table::{Key, Table};
use vstd::prelude::*;
use vstd::string::*;

verus! {

/// Where a placed sandbox lives.
pub struct SandboxRegistry {
    pub placements: Table<String, EndpointId>,
}

impl View for SandboxRegistry {
    type V = Map<Seq<char>, EndpointId>;

    open spec fn view(&self) -> Map<Seq<char>, EndpointId> {
        self.placements@
    }
}

impl SandboxRegistry {
    /// No sandbox is placed twice.
    pub open spec fn wf(&self) -> bool {
        self.placements.wf()
    }

    pub fn new() -> (r: Self)
        ensures
            r.wf(),
            r@ == Map::<Seq<char>, EndpointId>::empty(),
    {
        SandboxRegistry { placements: Table::new() }
    }

    /// Records that `sandbox` was placed on `backend` (at allocation, and to repopulate
    /// after a recovery probe).
    pub fn place(&mut self, sandbox: &str, backend: EndpointId)
        requires
            old(self).wf(),
        ensures
            final(self).wf(),
            final(self)@ == old(self)@.insert(sandbox@, backend),
    {
        self.placements.insert(sandbox.to_owned(), backend);
    }

    /// The backend owning `sandbox`, if known.
    pub fn locate(&self, sandbox: &str) -> (r: Option<EndpointId>)
        requires
            self.wf(),
        ensures
            r == (if self@.contains_key(sandbox@) {
                Some(self@[sandbox@])
            } else {
                None::<EndpointId>
            }),
    {
        match self.placements.get(&sandbox.to_owned()) {
            Some(b) => Some(*b),
            None => None,
        }
    }

    /// Whether `sandbox` is already tracked (for the create collision check).
    pub fn contains(&self, sandbox: &str) -> (r: bool)
        requires
            self.wf(),
        ensures
            r == self@.contains_key(sandbox@),
    {
        self.placements.contains(&sandbox.to_owned())
    }

    /// Drops a sandbox known to be gone. Returns whether it was tracked.
    pub fn forget(&mut self, sandbox: &str) -> (r: bool)
        requires
            old(self).wf(),
        ensures
            final(self).wf(),
            final(self)@ == old(self)@.remove(sandbox@),
            r == old(self)@.contains_key(sandbox@),
    {
        match self.placements.remove(&sandbox.to_owned()) {
            Some(_) => true,
            None => false,
        }
    }

    /// Every known placement, each sandbox once.
    pub fn snapshot(&self) -> (v: Vec<(String, EndpointId)>)
        requires
            self.wf(),
        ensures
            self@.dom().finite(),
            v@.len() == self@.len(),
            table::distinct(v@),
            table::as_map(v@) == self@,
    {
        let ghost s = self.placements.entries@;
        let mut v: Vec<(String, EndpointId)> = Vec::new();
        let mut i: usize = 0;
        while i < self.placements.entries.len()
            invariant
                s == self.placements.entries@,
                i <= s.len(),
                v@.len() == i,
                forall|k: int| 0 <= k < i ==> (#[trigger] v@[k]).0@ == s[k].0@ && v@[k].1 == s[k].1,
            decreases s.len() - i,
        {
            let e = &self.placements.entries[i];
            v.push((e.0.clone(), e.1));
            i = i + 1;
        }
        proof {
            table::lemma_len(s);
            assert forall|a: int, b: int|
                0 <= a < v@.len() && 0 <= b < v@.len() && a != b implies (
            #[trigger] v@[a]).0.name() != (#[trigger] v@[b]).0.name() by {
                assert(s[a].0.name() != s[b].0.name());
            }
            assert forall|n: Seq<char>| #[trigger]
                table::as_map(v@).contains_key(n) <==> self@.contains_key(n) by {
                if table::as_map(v@).contains_key(n) {
                    let i = table::lemma_key(v@, n);
                    assert(table::keyed(s, n, i));
                }
                if self@.contains_key(n) {
                    let i = table::lemma_key(s, n);
                    assert(table::keyed(v@, n, i));
                }
            }
            assert forall|n: Seq<char>|
                table::as_map(v@).contains_key(n) implies #[trigger] table::as_map(v@)[n]
                == self@[n] by {
                let i = table::lemma_key(v@, n);
                table::lemma_entry(v@, i);
                table::lemma_entry(s, i);
            }
            assert(table::as_map(v@) =~= self@);
        }
        v
    }

    pub fn len(&self) -> (n: usize)
        requires
            self.wf(),
        ensures
            self@.dom().finite(),
            n == self@.len(),
    {
        self.placements.len()
    }
}

/// A sandbox is found where it was last placed, and placing one leaves every other
/// where it was.
pub proof fn law_placement_is_found(
    m: Map<Seq<char>, EndpointId>,
    sandbox: Seq<char>,
    backend: EndpointId,
    other: Seq<char>,
)
    ensures
        m.insert(sandbox, backend).contains_key(sandbox),
        m.insert(sandbox, backend)[sandbox] == backend,
        other != sandbox ==> m.insert(sandbox, backend).contains_key(other) == m.contains_key(other),
        other != sandbox && m.contains_key(other) ==> m.insert(sandbox, backend)[other] == m[other],
{
}

/// A forgotten sandbox is not found, and forgetting undoes the placement of a new one.
pub proof fn law_forget_undoes_place(
    m: Map<Seq<char>, EndpointId>,
    sandbox: Seq<char>,
    backend: EndpointId,
)
    ensures
        !m.remove(sandbox).contains_key(sandbox),
        !m.contains_key(sandbox) ==> m.insert(sandbox, backend).remove(sandbox) == m,
{
    if !m.contains_key(sandbox) {
        assert(m.insert(sandbox, backend).remove(sandbox) =~= m);
    }
}

}
