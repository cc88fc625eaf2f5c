//! Maps from text to text whose entries stand in the order of their keys.

use crate::text;
use vstd::prelude::*;
use vstd::string::*;

verus! {

/// Whether `a` comes before `b` in the order of texts: by the first character in which
/// they differ, a text before its continuations. (The UTF-8 bytes order alike.)
pub open spec fn text_before(a: Seq<char>, b: Seq<char>) -> bool
    decreases a.len(),
{
    if b.len() == 0 {
        false
    } else if a.len() == 0 {
        true
    } else {
        a[0] < b[0] || (a[0] == b[0] && text_before(a.drop_first(), b.drop_first()))
    }
}

/// No text comes before itself, and of two different texts one comes before the other.
pub proof fn lemma_text_before_total(a: Seq<char>, b: Seq<char>)
    ensures
        text_before(a, b) ==> a != b && !text_before(b, a),
        a != b ==> text_before(a, b) || text_before(b, a),
    decreases a.len(),
{
    if a.len() > 0 && b.len() > 0 {
        lemma_text_before_total(a.drop_first(), b.drop_first());
        if a[0] == b[0] && a.drop_first() == b.drop_first() {
            assert(a =~= seq![a[0]] + a.drop_first());
            assert(b =~= seq![b[0]] + b.drop_first());
        }
    } else if a.len() == 0 && b.len() == 0 {
        assert(a =~= b);
    }
}

/// The order of texts is transitive.
pub proof fn lemma_text_before_transitive(a: Seq<char>, b: Seq<char>, c: Seq<char>)
    requires
        text_before(a, b),
        text_before(b, c),
    ensures
        text_before(a, c),
    decreases a.len(),
{
    if a.len() > 0 && b.len() > 0 && c.len() > 0 && a[0] == b[0] && b[0] == c[0] {
        lemma_text_before_transitive(a.drop_first(), b.drop_first(), c.drop_first());
    }
}

/// Whether `a` comes before `b`.
pub fn comes_before(a: &str, b: &str) -> (r: bool)
    ensures
        r == text_before(a@, b@),
{
    let x = text::chars_of(a);
    let y = text::chars_of(b);
    let mut i: usize = 0;
    assert(x@.skip(0) =~= a@);
    assert(y@.skip(0) =~= b@);
    while i < x.len() && i < y.len() && x[i] == y[i]
        invariant
            i <= x@.len(),
            i <= y@.len(),
            text_before(a@, b@) == text_before(x@.skip(i as int), y@.skip(i as int)),
        decreases x@.len() - i,
    {
        proof {
            assert(x@.skip(i as int).drop_first() =~= x@.skip(i + 1));
            assert(y@.skip(i as int).drop_first() =~= y@.skip(i + 1));
        }
        i = i + 1;
    }
    if i == y.len() {
        false
    } else if i == x.len() {
        true
    } else {
        assert(x@.skip(i as int)[0] == x@[i as int]);
        assert(y@.skip(i as int)[0] == y@[i as int]);
        x[i] < y[i]
    }
}

/// A map from text to text.
pub struct StringMap {
    pub entries: Vec<(String, String)>,
}

/// Whether the `i`-th entry binds `k`.
pub open spec fn binds(s: Seq<(String, String)>, k: Seq<char>, i: int) -> bool {
    0 <= i < s.len() && (#[trigger] s[i]).0@ == k
}

/// The map that the entries hold.
pub open spec fn bound(s: Seq<(String, String)>) -> Map<Seq<char>, Seq<char>> {
    Map::new(|k: Seq<char>| exists|i: int| binds(s, k, i), |k: Seq<char>| s[choose|i: int| binds(s, k, i)].1@)
}

/// Whether the keys stand in strictly ascending order.
pub open spec fn ascending(s: Seq<(String, String)>) -> bool {
    forall|i: int, j: int| 0 <= i < j < s.len() ==> text_before((#[trigger] s[i]).0@, (#[trigger] s[j]).0@)
}

impl View for StringMap {
    type V = Map<Seq<char>, Seq<char>>;

    open spec fn view(&self) -> Map<Seq<char>, Seq<char>> {
        bound(self.entries@)
    }
}

/// The `i`-th entry gives its key its value, and no other entry has that key.
pub proof fn lemma_bound(s: Seq<(String, String)>, i: int)
    requires
        ascending(s),
        0 <= i < s.len(),
    ensures
        bound(s).contains_key(s[i].0@),
        bound(s)[s[i].0@] == s[i].1@,
        forall|j: int| binds(s, s[i].0@, j) ==> j == i,
{
    let k = s[i].0@;
    assert(binds(s, k, i));
    assert forall|j: int| binds(s, k, j) implies j == i by {
        if j < i {
            lemma_text_before_total(s[j].0@, s[i].0@);
        } else if i < j {
            lemma_text_before_total(s[i].0@, s[j].0@);
        }
    }
}

/// A key of the map stands in some entry.
pub proof fn lemma_bound_key(s: Seq<(String, String)>, k: Seq<char>) -> (i: int)
    requires
        ascending(s),
        bound(s).contains_key(k),
    ensures
        0 <= i < s.len(),
        s[i].0@ == k,
        bound(s)[k] == s[i].1@,
{
    let i = choose|i: int| binds(s, k, i);
    lemma_bound(s, i);
    i
}

impl StringMap {
    /// The keys stand in strictly ascending order.
    pub open spec fn wf(&self) -> bool {
        ascending(self.entries@)
    }

    pub fn new() -> (m: Self)
        ensures
            m.wf(),
            m@ == Map::<Seq<char>, Seq<char>>::empty(),
    {
        let m = StringMap { entries: Vec::new() };
        proof {
            assert forall|k: Seq<char>| !m@.contains_key(k) by {
                if exists|i: int| binds(m.entries@, k, i) {
                    let i = choose|i: int| binds(m.entries@, k, i);
                }
            }
            assert(m@ =~= Map::<Seq<char>, Seq<char>>::empty());
        }
        m
    }

    /// How many entries come before `key`.
    fn rank(&self, key: &str) -> (i: usize)
        requires
            self.wf(),
        ensures
            i <= self.entries@.len(),
            forall|j: int| 0 <= j < i ==> text_before((#[trigger] self.entries@[j]).0@, key@),
            i < self.entries@.len() ==> !text_before(self.entries@[i as int].0@, key@),
    {
        let mut i: usize = 0;
        while i < self.entries.len() && comes_before(self.entries[i].0.as_str(), key)
            invariant
                i <= self.entries@.len(),
                forall|j: int| 0 <= j < i ==> text_before((#[trigger] self.entries@[j]).0@, key@),
            decreases self.entries@.len() - i,
        {
            i = i + 1;
        }
        i
    }

    /// The value of `key`.
    pub fn get(&self, key: &str) -> (r: Option<&str>)
        requires
            self.wf(),
        ensures
            match r {
                Some(v) => self@.contains_key(key@) && self@[key@] == v@,
                None => !self@.contains_key(key@),
            },
    {
        let i = self.rank(key);
        let ghost s = self.entries@;
        if i < self.entries.len() && text::same_str(self.entries[i].0.as_str(), key) {
            proof {
                lemma_bound(s, i as int);
            }
            return Some(self.entries[i].1.as_str());
        }
        proof {
            if self@.contains_key(key@) {
                let k = lemma_bound_key(s, key@);
                lemma_text_before_total(key@, key@);
                if i < k {
                    lemma_text_before_total(s[i as int].0@, key@);
                }
            }
        }
        None
    }

    /// Binds `key` to `value`.
    pub fn insert(&mut self, key: String, value: String)
        requires
            old(self).wf(),
        ensures
            final(self).wf(),
            final(self)@ == old(self)@.insert(key@, value@),
    {
        let i = self.rank(key.as_str());
        let ghost s = self.entries@;
        let ghost k = key@;
        let ghost v = value@;
        if i < self.entries.len() && text::same_str(self.entries[i].0.as_str(), key.as_str()) {
            self.entries.set(i, (key, value));
            proof {
                let t = self.entries@;
                assert forall|a: int, b: int| 0 <= a < b < t.len() implies text_before(
                    (#[trigger] t[a]).0@,
                    (#[trigger] t[b]).0@,
                ) by {
                    assert(t[a].0@ == s[a].0@);
                    assert(t[b].0@ == s[b].0@);
                }
                lemma_updated(s, t, i as int, k, v);
            }
        } else {
            self.entries.insert(i, (key, value));
            proof {
                let t = self.entries@;
                let e = t[i as int];
                assert(t == s.insert(i as int, e));
                assert forall|j: int| i <= j < s.len() implies text_before(k, (#[trigger] s[j]).0@) by {
                    lemma_text_before_total(s[i as int].0@, k);
                    if i < j {
                        lemma_text_before_transitive(k, s[i as int].0@, s[j].0@);
                    }
                }
                assert forall|a: int, b: int| 0 <= a < b < t.len() implies text_before(
                    (#[trigger] t[a]).0@,
                    (#[trigger] t[b]).0@,
                ) by {
                    let x = if a < i {
                        a
                    } else {
                        a - 1
                    };
                    let y = if b < i {
                        b
                    } else {
                        b - 1
                    };
                    if a != i {
                        assert(t[a] == s[x]);
                    }
                    if b != i {
                        assert(t[b] == s[y]);
                    }
                }
                lemma_inserted(s, t, i as int, k, v);
            }
        }
    }

    /// A map with the same entries.
    pub fn copy(&self) -> (m: StringMap)
        requires
            self.wf(),
        ensures
            m.wf(),
            m@ == self@,
            m.entries@.len() == self.entries@.len(),
            forall|i: int|
                0 <= i < m.entries@.len() ==> (#[trigger] m.entries@[i]).0@ == self.entries@[i].0@
                    && m.entries@[i].1@ == self.entries@[i].1@,
    {
        let ghost s = self.entries@;
        let mut out: Vec<(String, String)> = Vec::new();
        let mut i: usize = 0;
        while i < self.entries.len()
            invariant
                s == self.entries@,
                i <= s.len(),
                out@.len() == i,
                forall|j: int|
                    0 <= j < i ==> (#[trigger] out@[j]).0@ == s[j].0@ && out@[j].1@ == s[j].1@,
            decreases s.len() - i,
        {
            let e = &self.entries[i];
            out.push((e.0.as_str().to_owned(), e.1.as_str().to_owned()));
            i = i + 1;
        }
        proof {
            assert(ascending(out@)) by {
                assert forall|a: int, b: int| 0 <= a < b < out@.len() implies text_before(
                    (#[trigger] out@[a]).0@,
                    (#[trigger] out@[b]).0@,
                ) by {
                    assert(text_before(s[a].0@, s[b].0@));
                }
            }
            lemma_same_bound(s, out@);
        }
        StringMap { entries: out }
    }

    /// The entries whose keys do not begin with `prefix`.
    pub fn without_prefix(&self, prefix: &str) -> (m: StringMap)
        requires
            self.wf(),
        ensures
            m.wf(),
            m@ == self@.restrict(Set::new(|k: Seq<char>| !prefix@.is_prefix_of(k))),
    {
        let ghost s = self.entries@;
        let ghost keep = Set::new(|k: Seq<char>| !prefix@.is_prefix_of(k));
        let p = text::chars_of(prefix);
        let mut out: Vec<(String, String)> = Vec::new();
        let ghost mut from: Seq<int> = seq![];
        let mut i: usize = 0;
        while i < self.entries.len()
            invariant
                s == self.entries@,
                ascending(s),
                p@ == prefix@,
                keep == Set::new(|k: Seq<char>| !prefix@.is_prefix_of(k)),
                i <= s.len(),
                out@.len() == from.len(),
                forall|j: int|
                    0 <= j < from.len() ==> {
                        let o = #[trigger] from[j];
                        &&& 0 <= o < i
                        &&& out@[j].0@ == s[o].0@
                        &&& out@[j].1@ == s[o].1@
                        &&& keep.contains(s[o].0@)
                    },
                forall|a: int, b: int| 0 <= a < b < from.len() ==> (#[trigger] from[a]) < (#[trigger] from[b]),
                forall|o: int| 0 <= o < i && keep.contains((#[trigger] s[o]).0@) ==> from.contains(o),
            decreases s.len() - i,
        {
            let e = &self.entries[i];
            let k = text::chars_of(e.0.as_str());
            if !text::begins_with(k.as_slice(), p.as_slice()) {
                out.push((e.0.as_str().to_owned(), e.1.as_str().to_owned()));
                proof {
                    let was = from;
                    from = from.push(i as int);
                    assert forall|o: int| 0 <= o <= i && keep.contains((#[trigger] s[o]).0@) implies from.contains(
                    o) by {
                        if o == i {
                            assert(from[was.len() as int] == o);
                        } else {
                            assert(was.contains(o));
                            let j = choose|j: int| 0 <= j < was.len() && was[j] == o;
                            assert(from[j] == o);
                        }
                    }
                }
            }
            i = i + 1;
        }
        proof {
            let t = out@;
            assert forall|a: int, b: int| 0 <= a < b < t.len() implies text_before(
                (#[trigger] t[a]).0@,
                (#[trigger] t[b]).0@,
            ) by {
                assert(from[a] < from[b]);
                assert(text_before(s[from[a]].0@, s[from[b]].0@));
            }
            assert forall|k: Seq<char>| #[trigger]
                bound(t).contains_key(k) <==> bound(s).contains_key(k) && keep.contains(k) by {
                if bound(t).contains_key(k) {
                    let j = lemma_bound_key(t, k);
                    lemma_bound(s, from[j]);
                }
                if bound(s).contains_key(k) && keep.contains(k) {
                    let o = lemma_bound_key(s, k);
                    assert(from.contains(o));
                    let j = choose|j: int| 0 <= j < from.len() && from[j] == o;
                    lemma_bound(t, j);
                }
            }
            assert forall|k: Seq<char>| bound(t).contains_key(k) implies #[trigger] bound(t)[k]
                == bound(s)[k] by {
                let j = lemma_bound_key(t, k);
                lemma_bound(s, from[j]);
            }
            assert(bound(t) =~= bound(s).restrict(keep));
        }
        StringMap { entries: out }
    }
}

proof fn lemma_same_bound(s: Seq<(String, String)>, t: Seq<(String, String)>)
    requires
        ascending(s),
        ascending(t),
        s.len() == t.len(),
        forall|i: int| 0 <= i < s.len() ==> (#[trigger] t[i]).0@ == s[i].0@ && t[i].1@ == s[i].1@,
    ensures
        bound(s) == bound(t),
{
    assert forall|k: Seq<char>| #[trigger] bound(s).contains_key(k) <==> bound(t).contains_key(k) by {
        if bound(s).contains_key(k) {
            let i = lemma_bound_key(s, k);
            lemma_bound(t, i);
        }
        if bound(t).contains_key(k) {
            let i = lemma_bound_key(t, k);
            lemma_bound(s, i);
        }
    }
    assert forall|k: Seq<char>| bound(s).contains_key(k) implies #[trigger] bound(s)[k] == bound(t)[k] by {
        let i = lemma_bound_key(s, k);
        lemma_bound(t, i);
    }
    assert(bound(s) =~= bound(t));
}

proof fn lemma_updated(
    s: Seq<(String, String)>,
    t: Seq<(String, String)>,
    i: int,
    k: Seq<char>,
    v: Seq<char>,
)
    requires
        ascending(s),
        ascending(t),
        0 <= i < s.len(),
        s[i].0@ == k,
        t == s.update(i, t[i]),
        t[i].0@ == k,
        t[i].1@ == v,
    ensures
        bound(t) == bound(s).insert(k, v),
{
    lemma_bound(s, i);
    lemma_bound(t, i);
    assert forall|x: Seq<char>| #[trigger] bound(t).contains_key(x) <==> bound(s).contains_key(x) by {
        if bound(t).contains_key(x) {
            let j = lemma_bound_key(t, x);
            lemma_bound(s, j);
        }
        if bound(s).contains_key(x) {
            let j = lemma_bound_key(s, x);
            lemma_bound(t, j);
        }
    }
    assert forall|x: Seq<char>| bound(t).contains_key(x) && x != k implies #[trigger] bound(t)[x]
        == bound(s)[x] by {
        let j = lemma_bound_key(t, x);
        lemma_bound(s, j);
    }
    assert(bound(t) =~= bound(s).insert(k, v));
}

proof fn lemma_inserted(
    s: Seq<(String, String)>,
    t: Seq<(String, String)>,
    i: int,
    k: Seq<char>,
    v: Seq<char>,
)
    requires
        ascending(s),
        ascending(t),
        0 <= i <= s.len(),
        t == s.insert(i, t[i]),
        t[i].0@ == k,
        t[i].1@ == v,
    ensures
        bound(t) == bound(s).insert(k, v),
{
    lemma_bound(t, i);
    assert forall|x: Seq<char>| #[trigger]
        bound(t).contains_key(x) <==> bound(s).contains_key(x) || x == k by {
        if bound(t).contains_key(x) && x != k {
            let j = lemma_bound_key(t, x);
            let o = if j < i {
                j
            } else {
                j - 1
            };
            assert(t[j] == s[o]);
            lemma_bound(s, o);
        }
        if bound(s).contains_key(x) {
            let o = lemma_bound_key(s, x);
            let j = if o < i {
                o
            } else {
                o + 1
            };
            assert(t[j] == s[o]);
            lemma_bound(t, j);
        }
    }
    assert forall|x: Seq<char>| bound(t).contains_key(x) && x != k implies #[trigger] bound(t)[x]
        == bound(s)[x] by {
        let j = lemma_bound_key(t, x);
        let o = if j < i {
            j
        } else {
            j - 1
        };
        assert(t[j] == s[o]);
        lemma_bound(s, o);
    }
    assert(bound(t) =~= bound(s).insert(k, v));
}

}
