//! A small map kept as a list of entries, no key twice.

use crate::ids::EndpointId;
use crate::text;
use vstd::prelude::*;
use vstd::string::*;

verus! {

/// What a table is keyed by.
pub trait Key: Sized {
    /// The key as a mathematical value.
    type Name;

    spec fn name(&self) -> Self::Name;

    /// Whether two keys are the same.
    fn same(&self, other: &Self) -> (r: bool)
        ensures
            r == (self.name() == other.name()),
    ;
}

impl Key for EndpointId {
    type Name = EndpointId;

    open spec fn name(&self) -> EndpointId {
        *self
    }

    fn same(&self, other: &Self) -> (r: bool) {
        *self == *other
    }
}

impl Key for String {
    type Name = Seq<char>;

    open spec fn name(&self) -> Seq<char> {
        self@
    }

    fn same(&self, other: &Self) -> (r: bool) {
        text::same_str(self.as_str(), other.as_str())
    }
}

/// Whether the `i`-th entry is keyed by `n`.
pub open spec fn keyed<K: Key, V>(s: Seq<(K, V)>, n: K::Name, i: int) -> bool {
    0 <= i < s.len() && s[i].0.name() == n
}

/// Whether no key occurs twice.
pub open spec fn distinct<K: Key, V>(s: Seq<(K, V)>) -> bool {
    forall|i: int, j: int|
        0 <= i < s.len() && 0 <= j < s.len() && i != j ==> (#[trigger] s[i]).0.name() != (
        #[trigger] s[j]).0.name()
}

/// The entries as a map.
pub open spec fn as_map<K: Key, V>(s: Seq<(K, V)>) -> Map<K::Name, V> {
    Map::new(
        |n: K::Name| exists|i: int| keyed(s, n, i),
        |n: K::Name| s[choose|i: int| keyed(s, n, i)].1,
    )
}

/// Every entry is in the map, under its key.
pub proof fn lemma_entry<K: Key, V>(s: Seq<(K, V)>, i: int)
    requires
        distinct(s),
        0 <= i < s.len(),
    ensures
        as_map(s).contains_key(s[i].0.name()),
        as_map(s)[s[i].0.name()] == s[i].1,
{
    let n = s[i].0.name();
    assert(keyed(s, n, i));
    let j = choose|j: int| keyed(s, n, j);
    assert(keyed(s, n, j));
    if i != j {
        assert(s[i].0.name() != s[j].0.name());
    }
}

/// Every key of the map has its entry.
pub proof fn lemma_key<K: Key, V>(s: Seq<(K, V)>, n: K::Name) -> (i: int)
    requires
        as_map(s).contains_key(n),
    ensures
        keyed(s, n, i),
        as_map(s)[n] == s[i].1,
{
    choose|i: int| keyed(s, n, i)
}

/// The map has as many keys as there are entries.
pub proof fn lemma_len<K: Key, V>(s: Seq<(K, V)>)
    requires
        distinct(s),
    ensures
        as_map(s).dom().finite(),
        as_map(s).len() == s.len(),
    decreases s.len(),
{
    if s.len() == 0 {
        assert(as_map(s).dom() =~= Set::<K::Name>::empty());
    } else {
        let t = s.drop_last();
        lemma_push(t, s.last());
        assert(t.push(s.last()) =~= s);
        lemma_len(t);
    }
}

/// One more entry, of a new key, is one more binding.
pub proof fn lemma_push<K: Key, V>(t: Seq<(K, V)>, e: (K, V))
    requires
        distinct(t.push(e)),
    ensures
        distinct(t),
        !as_map(t).contains_key(e.0.name()),
        as_map(t.push(e)) == as_map(t).insert(e.0.name(), e.1),
{
    let s = t.push(e);
    let n = t.len() as int;
    assert forall|i: int, j: int| 0 <= i < t.len() && 0 <= j < t.len() && i != j implies (
    #[trigger] t[i]).0.name() != (#[trigger] t[j]).0.name() by {
        assert(s[i] == t[i] && s[j] == t[j]);
    }
    if as_map(t).contains_key(e.0.name()) {
        let i = lemma_key(t, e.0.name());
        assert(s[i] == t[i]);
        assert(s[n] == e);
    }
    assert(as_map(s) =~= as_map(t).insert(e.0.name(), e.1)) by {
        assert forall|k: K::Name|
            as_map(s).contains_key(k) == as_map(t).insert(e.0.name(), e.1).contains_key(k) by {
            if as_map(s).contains_key(k) {
                let i = lemma_key(s, k);
                if i < n {
                    assert(keyed(t, k, i));
                }
            }
            if as_map(t).contains_key(k) {
                let i = lemma_key(t, k);
                assert(keyed(s, k, i));
            }
            if k == e.0.name() {
                assert(keyed(s, k, n));
            }
        }
        assert forall|k: K::Name| as_map(s).contains_key(k) implies #[trigger] as_map(s)[k]
            == as_map(t).insert(e.0.name(), e.1)[k] by {
            let i = lemma_key(s, k);
            lemma_entry(s, i);
            if i < n {
                lemma_entry(t, i);
            }
        }
    }
}

/// Setting the value of an entry rebinds its key.
pub proof fn lemma_set<K: Key, V>(s: Seq<(K, V)>, i: int, e: (K, V))
    requires
        distinct(s),
        0 <= i < s.len(),
        s[i].0.name() == e.0.name(),
    ensures
        distinct(s.update(i, e)),
        as_map(s.update(i, e)) == as_map(s).insert(e.0.name(), e.1),
{
    let t = s.update(i, e);
    assert forall|a: int, b: int| 0 <= a < t.len() && 0 <= b < t.len() && a != b implies (
    #[trigger] t[a]).0.name() != (#[trigger] t[b]).0.name() by {
        assert(s[a].0.name() != s[b].0.name());
    }
    assert forall|k: K::Name|
        as_map(t).contains_key(k) == as_map(s).insert(e.0.name(), e.1).contains_key(k) by {
        if as_map(t).contains_key(k) {
            let j = lemma_key(t, k);
            assert(keyed(s, k, j));
        }
        if as_map(s).contains_key(k) {
            let j = lemma_key(s, k);
            assert(keyed(t, k, j));
        }
        if k == e.0.name() {
            assert(keyed(t, k, i));
        }
    }
    assert forall|k: K::Name| as_map(t).contains_key(k) implies #[trigger] as_map(t)[k] == as_map(
        s,
    ).insert(e.0.name(), e.1)[k] by {
        let j = lemma_key(t, k);
        lemma_entry(t, j);
        if j != i {
            lemma_entry(s, j);
            assert(s[j].0.name() != s[i].0.name());
        }
    }
    assert(as_map(t) =~= as_map(s).insert(e.0.name(), e.1));
}

/// Taking an entry out unbinds its key.
pub proof fn lemma_remove<K: Key, V>(s: Seq<(K, V)>, i: int)
    requires
        distinct(s),
        0 <= i < s.len(),
    ensures
        distinct(s.remove(i)),
        as_map(s.remove(i)) == as_map(s).remove(s[i].0.name()),
{
    let t = s.remove(i);
    let n = s[i].0.name();
    assert forall|a: int, b: int| 0 <= a < t.len() && 0 <= b < t.len() && a != b implies (
    #[trigger] t[a]).0.name() != (#[trigger] t[b]).0.name() by {
        let x = if a < i {
            a
        } else {
            a + 1
        };
        let y = if b < i {
            b
        } else {
            b + 1
        };
        assert(t[a] == s[x] && t[b] == s[y]);
    }
    assert forall|k: K::Name| as_map(t).contains_key(k) == as_map(s).remove(n).contains_key(k) by {
        if as_map(t).contains_key(k) {
            let j = lemma_key(t, k);
            let x = if j < i {
                j
            } else {
                j + 1
            };
            assert(t[j] == s[x]);
            assert(keyed(s, k, x));
            assert(s[x].0.name() != s[i].0.name());
        }
        if as_map(s).contains_key(k) && k != n {
            let j = lemma_key(s, k);
            let x = if j < i {
                j
            } else {
                j - 1
            };
            assert(t[x] == s[j]);
            assert(keyed(t, k, x));
        }
    }
    assert forall|k: K::Name| as_map(t).contains_key(k) implies #[trigger] as_map(t)[k] == as_map(
        s,
    ).remove(n)[k] by {
        let j = lemma_key(t, k);
        lemma_entry(t, j);
        let x = if j < i {
            j
        } else {
            j + 1
        };
        assert(t[j] == s[x]);
        lemma_entry(s, x);
    }
    assert(as_map(t) =~= as_map(s).remove(n));
}

/// A map with at most one entry per key.
pub struct Table<K: Key, V> {
    pub entries: Vec<(K, V)>,
}

impl<K: Key, V> View for Table<K, V> {
    type V = Map<K::Name, V>;

    open spec fn view(&self) -> Map<K::Name, V> {
        as_map(self.entries@)
    }
}

impl<K: Key, V> Table<K, V> {
    /// No key occurs twice.
    pub open spec fn wf(&self) -> bool {
        distinct(self.entries@)
    }

    pub fn new() -> (t: Self)
        ensures
            t.wf(),
            t@ == Map::<K::Name, V>::empty(),
    {
        let t = Table { entries: Vec::new() };
        assert(t@ =~= Map::<K::Name, V>::empty());
        t
    }

    /// How many keys are bound.
    pub fn len(&self) -> (n: usize)
        requires
            self.wf(),
        ensures
            n == self@.len(),
            self@.dom().finite(),
    {
        proof {
            lemma_len(self.entries@);
        }
        self.entries.len()
    }

    /// The place of the entry for `key`.
    pub fn find(&self, key: &K) -> (r: Option<usize>)
        requires
            self.wf(),
        ensures
            match r {
                Some(i) => {
                    &&& keyed(self.entries@, key.name(), i as int)
                    &&& self@.contains_key(key.name())
                    &&& self@[key.name()] == self.entries@[i as int].1
                },
                None => !self@.contains_key(key.name()),
            },
    {
        let mut i: usize = 0;
        while i < self.entries.len()
            invariant
                self.wf(),
                i <= self.entries@.len(),
                forall|j: int| 0 <= j < i ==> !keyed(self.entries@, key.name(), j),
            decreases self.entries@.len() - i,
        {
            if self.entries[i].0.same(key) {
                proof {
                    lemma_entry(self.entries@, i as int);
                }
                return Some(i);
            }
            i = i + 1;
        }
        None
    }

    /// What is bound to `key`.
    pub fn get(&self, key: &K) -> (r: Option<&V>)
        requires
            self.wf(),
        ensures
            match r {
                Some(v) => self@.contains_key(key.name()) && *v == self@[key.name()],
                None => !self@.contains_key(key.name()),
            },
    {
        match self.find(key) {
            Some(i) => Some(&self.entries[i].1),
            None => None,
        }
    }

    /// Whether `key` is bound.
    pub fn contains(&self, key: &K) -> (r: bool)
        requires
            self.wf(),
        ensures
            r == self@.contains_key(key.name()),
    {
        match self.find(key) {
            Some(_) => true,
            None => false,
        }
    }

    /// Binds `key` to `value`, in place of what it was bound to.
    pub fn insert(&mut self, key: K, value: V)
        requires
            old(self).wf(),
        ensures
            final(self).wf(),
            final(self)@ == old(self)@.insert(key.name(), value),
    {
        match self.find(&key) {
            Some(i) => {
                proof {
                    lemma_set(self.entries@, i as int, (key, value));
                }
                self.entries.set(i, (key, value));
            },
            None => {
                proof {
                    let s = self.entries@.push((key, value));
                    assert forall|a: int, b: int|
                        0 <= a < s.len() && 0 <= b < s.len() && a != b implies (
                    #[trigger] s[a]).0.name() != (#[trigger] s[b]).0.name() by {
                        if a < b && b == s.len() - 1 {
                            assert(!keyed(self.entries@, key.name(), a));
                        }
                        if b < a && a == s.len() - 1 {
                            assert(!keyed(self.entries@, key.name(), b));
                        }
                        if a < s.len() - 1 && b < s.len() - 1 {
                            assert(self.entries@[a] == s[a] && self.entries@[b] == s[b]);
                        }
                    }
                    lemma_push(self.entries@, (key, value));
                }
                self.entries.push((key, value));
            },
        }
    }

    /// Unbinds `key`.
    pub fn remove(&mut self, key: &K) -> (r: Option<V>)
        requires
            old(self).wf(),
        ensures
            final(self).wf(),
            final(self)@ == old(self)@.remove(key.name()),
            match r {
                Some(v) => old(self)@.contains_key(key.name()) && v == old(self)@[key.name()],
                None => !old(self)@.contains_key(key.name()),
            },
    {
        match self.find(key) {
            Some(i) => {
                proof {
                    lemma_remove(self.entries@, i as int);
                }
                let e = self.entries.remove(i);
                Some(e.1)
            },
            None => {
                assert(self@.remove(key.name()) =~= self@);
                None
            },
        }
    }
}

/// A kind of value that entries are picked by.
pub trait Kind<V> {
    /// Whether `v` is of this kind.
    spec fn covers(&self, v: V) -> bool;

    /// Whether `v` is of this kind.
    fn test(&self, v: &V) -> (r: bool)
        ensures
            r == self.covers(*v),
    ;
}

/// Whether one of the first `n` entries is for `id` and has a value of the kind `p`.
pub open spec fn chosen<V, P: Kind<V>>(
    s: Seq<(EndpointId, V)>,
    n: int,
    p: P,
    id: EndpointId,
) -> bool {
    exists|j: int| 0 <= j < n && (#[trigger] s[j]).0 == id && p.covers(s[j].1)
}

proof fn lemma_chosen_step<V, P: Kind<V>>(
    s: Seq<(EndpointId, V)>,
    n: int,
    p: P,
    id: EndpointId,
)
    requires
        0 <= n < s.len(),
    ensures
        chosen(s, n + 1, p, id) <==> chosen(s, n, p, id) || (s[n].0 == id && p.covers(s[n].1)),
{
    if chosen(s, n + 1, p, id) {
        let j = choose|j: int| 0 <= j < n + 1 && (#[trigger] s[j]).0 == id && p.covers(s[j].1);
        if j < n {
            assert(chosen(s, n, p, id));
        }
    }
    if chosen(s, n, p, id) {
        let j = choose|j: int| 0 <= j < n && (#[trigger] s[j]).0 == id && p.covers(s[j].1);
        assert(s[j].0 == id);
    }
    if s[n].0 == id && p.covers(s[n].1) {
        assert(chosen(s, n + 1, p, id));
    }
}

/// A pushed element is the only new one.
pub proof fn lemma_push_contains<T>(s: Seq<T>, x: T, y: T)
    ensures
        s.push(x).contains(y) <==> s.contains(y) || x == y,
{
    if s.contains(y) {
        let k = choose|k: int| 0 <= k < s.len() && s[k] == y;
        assert(s.push(x)[k] == y);
    }
    if s.push(x).contains(y) {
        let k = choose|k: int| 0 <= k < s.push(x).len() && s.push(x)[k] == y;
        if k < s.len() {
            assert(s[k] == y);
        }
    }
    assert(s.push(x)[s.len() as int] == x);
}

impl<V> Table<EndpointId, V> {
    /// The ids that are bound to a value of the kind `p`, each once.
    pub fn ids_where<P: Kind<V>>(&self, p: P) -> (out: Vec<EndpointId>)
        requires
            self.wf(),
        ensures
            out@.no_duplicates(),
            forall|id: EndpointId| #[trigger]
                out@.contains(id) <==> self@.contains_key(id) && p.covers(self@[id]),
    {
        let mut out: Vec<EndpointId> = Vec::new();
        let ghost s = self.entries@;
        let mut i: usize = 0;
        while i < self.entries.len()
            invariant
                self.wf(),
                s == self.entries@,
                i <= s.len(),
                out@.no_duplicates(),
                forall|id: EndpointId| #[trigger] out@.contains(id) <==> chosen(s, i as int, p, id),
            decreases s.len() - i,
        {
            let ghost was = out@;
            let id = self.entries[i].0;
            let keep = p.test(&self.entries[i].1);
            proof {
                assert(keep == p.covers(s[i as int].1));
                if keep {
                    assert(!was.contains(id)) by {
                        if was.contains(id) {
                            assert(chosen(s, i as int, p, id));
                            let j = choose|j: int|
                                0 <= j < i && (#[trigger] s[j]).0 == id && p.covers(s[j].1);
                            assert(s[j].0.name() != s[i as int].0.name());
                        }
                    }
                    assert(was.push(id).no_duplicates());
                }
                let next = if keep {
                    was.push(id)
                } else {
                    was
                };
                assert forall|x: EndpointId| #[trigger]
                    next.contains(x) <==> chosen(s, i + 1, p, x) by {
                    lemma_chosen_step(s, i as int, p, x);
                    lemma_push_contains(was, id, x);
                    assert(was.contains(x) <==> chosen(s, i as int, p, x));
                }
            }
            if keep {
                out.push(id);
            }
            i = i + 1;
        }
        proof {
            assert forall|id: EndpointId| #[trigger]
                out@.contains(id) <==> self@.contains_key(id) && p.covers(self@[id]) by {
                if chosen(s, s.len() as int, p, id) {
                    let j = choose|j: int| 0 <= j < s.len() && (#[trigger] s[j]).0 == id && p.covers(s[j].1);
                    lemma_entry(s, j);
                }
                if self@.contains_key(id) && p.covers(self@[id]) {
                    let j = lemma_key(s, id);
                    assert(s[j].0 == id);
                    assert(chosen(s, s.len() as int, p, id));
                }
            }
        }
        out
    }

    /// Unbinds every id in `ids`.
    pub fn remove_all(&mut self, ids: &Vec<EndpointId>)
        requires
            old(self).wf(),
        ensures
            final(self).wf(),
            final(self)@ == old(self)@.remove_keys(ids@.to_set()),
    {
        let ghost start = self@;
        let mut i: usize = 0;
        assert(start.remove_keys(ids@.take(0).to_set()) =~= start);
        while i < ids.len()
            invariant
                self.wf(),
                i <= ids@.len(),
                self@ == start.remove_keys(ids@.take(i as int).to_set()),
            decreases ids@.len() - i,
        {
            let id = ids[i];
            let _ = self.remove(&id);
            proof {
                let t = ids@.take(i as int);
                assert(ids@.take(i + 1) =~= t.push(id));
                assert forall|x: EndpointId| #[trigger]
                    t.push(id).to_set().contains(x) <==> t.to_set().contains(x) || x == id by {
                    lemma_push_contains(t, id, x);
                }
                assert(self@ =~= start.remove_keys(ids@.take(i + 1).to_set()));
            }
            i = i + 1;
        }
        assert(ids@.take(i as int) =~= ids@);
    }
}

}
