//! Text as sequences of characters: trimming, splitting, case folding.
//!
//! Every operation exists twice: as a spec function over `Seq<char>`, which the
//! contracts of the other modules speak of, and as executable code over `&[char]`
//! that is proved equal to it.

use vstd::prelude::*;
use vstd::slice::slice_subrange;
use vstd::string::*;

verus! {

// ---- characters ----

/// The Unicode `White_Space` property.
pub open spec fn white(c: char) -> bool {
    ||| '\u{9}' <= c <= '\u{d}'
    ||| c == ' '
    ||| c == '\u{85}'
    ||| c == '\u{a0}'
    ||| c == '\u{1680}'
    ||| '\u{2000}' <= c <= '\u{200a}'
    ||| c == '\u{2028}'
    ||| c == '\u{2029}'
    ||| c == '\u{202f}'
    ||| c == '\u{205f}'
    ||| c == '\u{3000}'
}

/// Whether `c` is white space.
pub fn is_white(c: char) -> (b: bool)
    ensures
        b == white(c),
{
    ('\u{9}' <= c && c <= '\u{d}') || c == ' ' || c == '\u{85}' || c == '\u{a0}' || c == '\u{1680}'
        || ('\u{2000}' <= c && c <= '\u{200a}') || c == '\u{2028}' || c == '\u{2029}' || c
        == '\u{202f}' || c == '\u{205f}' || c == '\u{3000}'
}

/// An ASCII capital becomes the small letter; every other character stays.
pub open spec fn lower_char(c: char) -> char {
    if 'A' <= c <= 'Z' {
        ((c as u32) + 32) as char
    } else {
        c
    }
}

/// `s` with ASCII capitals made small.
pub open spec fn lower(s: Seq<char>) -> Seq<char> {
    Seq::new(s.len(), |i: int| lower_char(s[i]))
}

fn to_lower_char(c: char) -> (r: char)
    ensures
        r == lower_char(c),
{
    if 'A' <= c && c <= 'Z' {
        ((c as u8) + 32) as char
    } else {
        c
    }
}

// ---- conversions ----

/// Appends one character (`String::push`).
#[verifier::external_body]
pub(crate) fn push_char(s: &mut String, c: char)
    ensures
        final(s)@ == old(s)@.push(c),
{
    s.push(c);
}

/// The characters of `s`, in order.
pub fn chars_of(s: &str) -> (v: Vec<char>)
    ensures
        v@ == s@,
{
    let mut v: Vec<char> = Vec::new();
    for c in it: s.chars()
        invariant
            v@ == it.seq().take(it.index()),
            it.seq() == s@,
    {
        v.push(c);
    }
    v
}

/// The string that holds exactly `c`.
pub fn string_of(c: &[char]) -> (s: String)
    ensures
        s@ == c@,
{
    let mut s: String = String::new();
    let mut i: usize = 0;
    while i < c.len()
        invariant
            i <= c@.len(),
            s@ == c@.take(i as int),
        decreases c@.len() - i,
    {
        push_char(&mut s, c[i]);
        i = i + 1;
    }
    assert(c@.take(c@.len() as int) == c@);
    s
}

/// Whether two character slices hold the same text.
pub fn same(a: &[char], b: &[char]) -> (r: bool)
    ensures
        r == (a@ == b@),
{
    if a.len() != b.len() {
        return false;
    }
    let mut i: usize = 0;
    while i < a.len()
        invariant
            a@.len() == b@.len(),
            i <= a@.len(),
            forall|j: int| 0 <= j < i ==> a@[j] == b@[j],
        decreases a@.len() - i,
    {
        if a[i] != b[i] {
            return false;
        }
        i = i + 1;
    }
    assert(a@ =~= b@);
    true
}

/// Whether two strings hold the same text.
pub fn same_str(a: &str, b: &str) -> (r: bool)
    ensures
        r == (a@ == b@),
{
    let x = chars_of(a);
    let y = chars_of(b);
    same(x.as_slice(), y.as_slice())
}

/// `s` with ASCII capitals made small.
pub fn to_lower(c: &[char]) -> (s: String)
    ensures
        s@ == lower(c@),
{
    let mut s: String = String::new();
    let mut i: usize = 0;
    while i < c.len()
        invariant
            i <= c@.len(),
            s@ == lower(c@.take(i as int)),
        decreases c@.len() - i,
    {
        push_char(&mut s, to_lower_char(c[i]));
        i = i + 1;
        assert(s@ =~= lower(c@.take(i as int)));
    }
    assert(c@.take(c@.len() as int) == c@);
    s
}

/// Whether two texts are equal once ASCII case is ignored.
pub fn same_ignoring_case(a: &[char], b: &[char]) -> (r: bool)
    ensures
        r == (lower(a@) == lower(b@)),
{
    if a.len() != b.len() {
        assert(lower(a@).len() != lower(b@).len());
        return false;
    }
    let mut i: usize = 0;
    while i < a.len()
        invariant
            a@.len() == b@.len(),
            i <= a@.len(),
            forall|j: int| 0 <= j < i ==> lower_char(a@[j]) == lower_char(b@[j]),
        decreases a@.len() - i,
    {
        if to_lower_char(a[i]) != to_lower_char(b[i]) {
            assert(lower(a@)[i as int] != lower(b@)[i as int]);
            return false;
        }
        i = i + 1;
    }
    assert(lower(a@) =~= lower(b@));
    true
}

// ---- searching ----

/// The first place of `c` in `s`, or `s.len()` where there is none.
pub open spec fn index_of(s: Seq<char>, c: char) -> int
    decreases s.len(),
{
    if s.len() == 0 || s[0] == c {
        0
    } else {
        1 + index_of(s.drop_first(), c)
    }
}

/// `index_of` is the one place that is either the end or holds `c`, with no `c`
/// before it.
pub proof fn lemma_index_of(s: Seq<char>, c: char)
    ensures
        0 <= index_of(s, c) <= s.len(),
        index_of(s, c) < s.len() ==> s[index_of(s, c)] == c,
        forall|j: int| 0 <= j < index_of(s, c) ==> s[j] != c,
    decreases s.len(),
{
    if s.len() == 0 || s[0] == c {
    } else {
        let t = s.drop_first();
        lemma_index_of(t, c);
        assert forall|j: int| 0 <= j < index_of(s, c) implies s[j] != c by {
            if j > 0 {
                assert(t[j - 1] == s[j]);
            }
        }
    }
}

/// Any place with these properties is `index_of`.
pub proof fn lemma_index_of_is(s: Seq<char>, c: char, k: int)
    requires
        0 <= k <= s.len(),
        k < s.len() ==> s[k] == c,
        forall|j: int| 0 <= j < k ==> s[j] != c,
    ensures
        index_of(s, c) == k,
{
    lemma_index_of(s, c);
}

/// The first place of `c` in `s`.
pub fn find(s: &[char], c: char) -> (k: usize)
    ensures
        k == index_of(s@, c),
        k <= s@.len(),
        k < s@.len() ==> s@[k as int] == c,
        forall|j: int| 0 <= j < k ==> s@[j] != c,
{
    let mut i: usize = 0;
    while i < s.len()
        invariant
            i <= s@.len(),
            forall|j: int| 0 <= j < i ==> s@[j] != c,
        decreases s@.len() - i,
    {
        if s[i] == c {
            proof {
                lemma_index_of_is(s@, c, i as int);
            }
            return i;
        }
        i = i + 1;
    }
    proof {
        lemma_index_of_is(s@, c, i as int);
    }
    i
}

/// The last place of `c` in `s`, or -1 where there is none.
pub open spec fn last_index_of(s: Seq<char>, c: char) -> int
    decreases s.len(),
{
    if s.len() == 0 {
        -1
    } else if s.last() == c {
        s.len() - 1
    } else {
        last_index_of(s.drop_last(), c)
    }
}

/// `last_index_of` is -1 or holds `c`, with no `c` after it.
pub proof fn lemma_last_index_of(s: Seq<char>, c: char)
    ensures
        -1 <= last_index_of(s, c) < s.len(),
        last_index_of(s, c) >= 0 ==> s[last_index_of(s, c)] == c,
        forall|j: int| last_index_of(s, c) < j < s.len() ==> s[j] != c,
    decreases s.len(),
{
    if s.len() == 0 || s.last() == c {
    } else {
        let t = s.drop_last();
        lemma_last_index_of(t, c);
        assert forall|j: int| last_index_of(s, c) < j < s.len() implies s[j] != c by {
            if j < t.len() {
                assert(t[j] == s[j]);
            }
        }
    }
}

/// What stands before the first `c`: all of `s` where there is none.
pub open spec fn before(s: Seq<char>, c: char) -> Seq<char> {
    s.take(index_of(s, c))
}

/// `s` parted at its first `c`.
pub open spec fn split_once(s: Seq<char>, c: char) -> Option<(Seq<char>, Seq<char>)> {
    let k = index_of(s, c);
    if k < s.len() {
        Some((s.take(k), s.skip(k + 1)))
    } else {
        None
    }
}

/// `s` parted at its last `c`.
pub open spec fn rsplit_once(s: Seq<char>, c: char) -> Option<(Seq<char>, Seq<char>)> {
    let k = last_index_of(s, c);
    if k >= 0 {
        Some((s.take(k), s.skip(k + 1)))
    } else {
        None
    }
}

/// What stands before the first `c`.
pub fn take_before(s: &[char], c: char) -> (r: &[char])
    ensures
        r@ == before(s@, c),
{
    let k: usize = find(s, c);
    slice_subrange(s, 0, k)
}

/// `s` parted at its first `c`.
pub fn cut(s: &[char], c: char) -> (r: Option<(&[char], &[char])>)
    ensures
        match r {
            Some(p) => split_once(s@, c) == Some((p.0@, p.1@)),
            None => split_once(s@, c) is None,
        },
{
    let k: usize = find(s, c);
    if k < s.len() {
        Some((slice_subrange(s, 0, k), slice_subrange(s, k + 1, s.len())))
    } else {
        None
    }
}

/// `s` parted at its last `c`.
pub fn rcut(s: &[char], c: char) -> (r: Option<(&[char], &[char])>)
    ensures
        match r {
            Some(p) => rsplit_once(s@, c) == Some((p.0@, p.1@)),
            None => rsplit_once(s@, c) is None,
        },
{
    proof {
        lemma_last_index_of(s@, c);
    }
    let mut i: usize = s.len();
    while i > 0
        invariant
            i <= s@.len(),
            forall|j: int| i <= j < s@.len() ==> s@[j] != c,
        decreases i,
    {
        if s[i - 1] == c {
            proof {
                lemma_last_index_of(s@, c);
            }
            return Some((slice_subrange(s, 0, i - 1), slice_subrange(s, i, s.len())));
        }
        i = i - 1;
    }
    proof {
        lemma_last_index_of(s@, c);
    }
    None
}

/// Whether `s` begins with `p`.
pub fn begins_with(s: &[char], p: &[char]) -> (r: bool)
    ensures
        r == p@.is_prefix_of(s@),
{
    if p.len() > s.len() {
        return false;
    }
    let r = same(slice_subrange(s, 0, p.len()), p);
    assert(s@.subrange(0, p@.len() as int) == p@ <==> p@.is_prefix_of(s@)) by {
        assert(p@.is_prefix_of(s@) ==> s@.subrange(0, p@.len() as int) =~= p@);
    }
    r
}

// ---- trimming ----

/// `s` without the white space at its start.
pub open spec fn trim_start(s: Seq<char>) -> Seq<char>
    decreases s.len(),
{
    if s.len() > 0 && white(s[0]) {
        trim_start(s.drop_first())
    } else {
        s
    }
}

/// `s` without the white space at its end.
pub open spec fn trim_end(s: Seq<char>) -> Seq<char>
    decreases s.len(),
{
    if s.len() > 0 && white(s.last()) {
        trim_end(s.drop_last())
    } else {
        s
    }
}

/// `s` without the white space around it.
pub open spec fn trim(s: Seq<char>) -> Seq<char> {
    trim_end(trim_start(s))
}

/// `s` without the run of `c` at its end.
pub open spec fn trim_end_char(s: Seq<char>, c: char) -> Seq<char>
    decreases s.len(),
{
    if s.len() > 0 && s.last() == c {
        trim_end_char(s.drop_last(), c)
    } else {
        s
    }
}

/// `s` without the white space at its start.
pub fn strip_start(s: &[char]) -> (r: &[char])
    ensures
        r@ == trim_start(s@),
{
    let mut i: usize = 0;
    assert(s@.skip(0) =~= s@);
    while i < s.len() && is_white(s[i])
        invariant
            i <= s@.len(),
            trim_start(s@.skip(i as int)) == trim_start(s@),
        decreases s@.len() - i,
    {
        assert(s@.skip(i as int).drop_first() =~= s@.skip(i + 1));
        i = i + 1;
    }
    slice_subrange(s, i, s.len())
}

/// `s` without the white space at its end.
pub fn strip_end(s: &[char]) -> (r: &[char])
    ensures
        r@ == trim_end(s@),
{
    let mut i: usize = s.len();
    assert(s@.take(i as int) =~= s@);
    while i > 0 && is_white(s[i - 1])
        invariant
            i <= s@.len(),
            trim_end(s@.take(i as int)) == trim_end(s@),
        decreases i,
    {
        assert(s@.take(i as int).drop_last() =~= s@.take(i - 1));
        i = i - 1;
    }
    slice_subrange(s, 0, i)
}

/// `s` without the white space around it.
pub fn strip(s: &[char]) -> (r: &[char])
    ensures
        r@ == trim(s@),
{
    strip_end(strip_start(s))
}

/// `s` without the run of `c` at its end.
pub fn strip_end_char(s: &[char], c: char) -> (r: &[char])
    ensures
        r@ == trim_end_char(s@, c),
{
    let mut i: usize = s.len();
    assert(s@.take(i as int) =~= s@);
    while i > 0 && s[i - 1] == c
        invariant
            i <= s@.len(),
            trim_end_char(s@.take(i as int), c) == trim_end_char(s@, c),
        decreases i,
    {
        assert(s@.take(i as int).drop_last() =~= s@.take(i - 1));
        i = i - 1;
    }
    slice_subrange(s, 0, i)
}

// ---- words ----

/// The length of the run at the start of `s` that holds no white space.
pub open spec fn word_len(s: Seq<char>) -> int
    decreases s.len(),
{
    if s.len() == 0 || white(s[0]) {
        0
    } else {
        1 + word_len(s.drop_first())
    }
}

/// The first word of `s`: empty where `s` holds none.
pub open spec fn first_word(s: Seq<char>) -> Seq<char> {
    let t = trim_start(s);
    t.take(word_len(t))
}

/// What follows the first word of `s`.
pub open spec fn after_word(s: Seq<char>) -> Seq<char> {
    let t = trim_start(s);
    t.skip(word_len(t))
}

/// The `n`-th word of `s`, counted from 0, where words are the longest runs
/// without white space.
pub open spec fn nth_word(s: Seq<char>, n: nat) -> Option<Seq<char>>
    decreases n,
{
    if first_word(s).len() == 0 {
        None
    } else if n == 0 {
        Some(first_word(s))
    } else {
        nth_word(after_word(s), (n - 1) as nat)
    }
}

/// `word_len` is the one place that is the end or white, with nothing white
/// before it.
pub proof fn lemma_word_len(s: Seq<char>)
    ensures
        0 <= word_len(s) <= s.len(),
        word_len(s) < s.len() ==> white(s[word_len(s)]),
        forall|j: int| 0 <= j < word_len(s) ==> !white(s[j]),
    decreases s.len(),
{
    if s.len() == 0 || white(s[0]) {
    } else {
        let t = s.drop_first();
        lemma_word_len(t);
        assert forall|j: int| 0 <= j < word_len(s) implies !white(s[j]) by {
            if j > 0 {
                assert(t[j - 1] == s[j]);
            }
        }
    }
}

/// Parts the first word off.
pub fn take_word(s: &[char]) -> (r: (&[char], &[char]))
    ensures
        r.0@ == first_word(s@),
        r.1@ == after_word(s@),
{
    let t = strip_start(s);
    let mut i: usize = 0;
    while i < t.len() && !is_white(t[i])
        invariant
            i <= t@.len(),
            forall|j: int| 0 <= j < i ==> !white(t@[j]),
        decreases t@.len() - i,
    {
        i = i + 1;
    }
    proof {
        lemma_word_len(t@);
    }
    (slice_subrange(t, 0, i), slice_subrange(t, i, t.len()))
}

/// The `n`-th word of `s`, counted from 0.
pub fn word_at(s: &[char], n: usize) -> (r: Option<&[char]>)
    ensures
        match r {
            Some(w) => nth_word(s@, n as nat) == Some(w@),
            None => nth_word(s@, n as nat) is None,
        },
    decreases n,
{
    let (w, rest) = take_word(s);
    if w.len() == 0 {
        None
    } else if n == 0 {
        Some(w)
    } else {
        word_at(rest, n - 1)
    }
}

// ---- lines ----

/// The first place of CR LF in `s`, or `s.len()` where there is none.
pub open spec fn crlf_at(s: Seq<char>) -> int
    decreases s.len(),
{
    if s.len() < 2 {
        s.len() as int
    } else if s[0] == '\r' && s[1] == '\n' {
        0
    } else {
        1 + crlf_at(s.drop_first())
    }
}

/// The pieces of `s` between one CR LF and the next: one piece more than there
/// are terminators.
pub open spec fn lines(s: Seq<char>) -> Seq<Seq<char>>
    decreases s.len(),
{
    let k = crlf_at(s);
    if 0 <= k && k + 1 < s.len() {
        seq![s.take(k)] + lines(s.skip(k + 2))
    } else {
        seq![s]
    }
}

/// `crlf_at` is the end or the first place of CR LF.
pub proof fn lemma_crlf_at(s: Seq<char>)
    ensures
        0 <= crlf_at(s) <= s.len(),
        crlf_at(s) < s.len() ==> crlf_at(s) + 1 < s.len() && s[crlf_at(s)] == '\r' && s[crlf_at(s)
            + 1] == '\n',
        forall|j: int|
            0 <= j < crlf_at(s) && j + 1 < s.len() ==> !(#[trigger] s[j] == '\r' && s[j + 1]
                == '\n'),
    decreases s.len(),
{
    if s.len() < 2 || (s[0] == '\r' && s[1] == '\n') {
    } else {
        let t = s.drop_first();
        lemma_crlf_at(t);
        assert forall|j: int| 0 <= j < crlf_at(s) && j + 1 < s.len() implies !(#[trigger] s[j]
            == '\r' && s[j + 1] == '\n') by {
            if j > 0 {
                assert(t[j - 1] == s[j]);
                assert(t[j] == s[j + 1]);
            }
        }
    }
}

/// The first place of CR LF in `s`.
pub fn find_crlf(s: &[char]) -> (k: usize)
    ensures
        k == crlf_at(s@),
        k <= s@.len(),
        k < s@.len() ==> k + 1 < s@.len() && s@[k as int] == '\r' && s@[k + 1] == '\n',
{
    proof {
        lemma_crlf_at(s@);
    }
    let mut i: usize = 0;
    while i < s.len()
        invariant
            i <= s@.len(),
            i <= crlf_at(s@),
            0 <= crlf_at(s@) <= s@.len(),
            forall|j: int|
                0 <= j < crlf_at(s@) && j + 1 < s@.len() ==> !(#[trigger] s@[j] == '\r' && s@[j
                    + 1] == '\n'),
            crlf_at(s@) < s@.len() ==> crlf_at(s@) + 1 < s@.len() && s@[crlf_at(s@)] == '\r'
                && s@[crlf_at(s@) + 1] == '\n',
        decreases s@.len() - i,
    {
        if s.len() - i >= 2 && s[i] == '\r' && s[i + 1] == '\n' {
            return i;
        }
        i = i + 1;
    }
    i
}

// ---- facts ----

/// The first line, and the lines after it.
pub proof fn lemma_lines_step(s: Seq<char>)
    ensures
        lines(s).len() > 0,
        lines(s)[0] == s.take(crlf_at(s)),
        crlf_at(s) < s.len() ==> lines(s).drop_first() == lines(
            s.skip(crlf_at(s) + 2),
        ),
        crlf_at(s) == s.len() ==> lines(s).drop_first() == Seq::<Seq<char>>::empty(),
{
    lemma_crlf_at(s);
    let k = crlf_at(s);
    if k < s.len() {
        assert(lines(s).drop_first() =~= lines(s.skip(k + 2)));
    } else {
        assert(s.take(k) =~= s);
        assert(lines(s).drop_first() =~= Seq::<Seq<char>>::empty());
    }
}

/// Trimming cuts white space off both ends and nothing else.
pub proof fn lemma_trim(s: Seq<char>) -> (r: (int, int))
    ensures
        0 <= r.0 <= r.1 <= s.len(),
        trim(s) == s.subrange(r.0, r.1),
        forall|i: int| 0 <= i < r.0 ==> white(s[i]),
        forall|i: int| r.1 <= i < s.len() ==> white(s[i]),
        r.0 < r.1 ==> !white(s[r.0]) && !white(s[r.1 - 1]),
{
    let a = lemma_trim_start(s);
    let t = trim_start(s);
    let b = lemma_trim_end(t);
    assert(t.take(b) =~= s.subrange(a, a + b));
    assert forall|i: int| a + b <= i < s.len() implies white(s[i]) by {
        assert(t[i - a] == s[i]);
    }
    (a, a + b)
}

/// How much white space stands at the start.
pub proof fn lemma_trim_start(s: Seq<char>) -> (a: int)
    ensures
        0 <= a <= s.len(),
        trim_start(s) == s.skip(a),
        forall|i: int| 0 <= i < a ==> white(s[i]),
        a < s.len() ==> !white(s[a]),
    decreases s.len(),
{
    if s.len() > 0 && white(s[0]) {
        let t = s.drop_first();
        let a = lemma_trim_start(t);
        assert(t.skip(a) =~= s.skip(a + 1));
        assert forall|i: int| 0 <= i < a + 1 implies white(s[i]) by {
            if i > 0 {
                assert(t[i - 1] == s[i]);
            }
        }
        a + 1
    } else {
        assert(s.skip(0) =~= s);
        0
    }
}

/// Where the white space at the end begins.
pub proof fn lemma_trim_end(s: Seq<char>) -> (b: int)
    ensures
        0 <= b <= s.len(),
        trim_end(s) == s.take(b),
        forall|i: int| b <= i < s.len() ==> white(s[i]),
        b > 0 ==> !white(s[b - 1]),
    decreases s.len(),
{
    if s.len() > 0 && white(s.last()) {
        let t = s.drop_last();
        let b = lemma_trim_end(t);
        assert(t.take(b) =~= s.take(b));
        assert forall|i: int| b <= i < s.len() implies white(s[i]) by {
            if i < t.len() {
                assert(t[i] == s[i]);
            }
        }
        b
    } else {
        assert(s.take(s.len() as int) =~= s);
        s.len() as int
    }
}

/// Text that neither begins nor ends with white space.
pub open spec fn trimmed(s: Seq<char>) -> bool {
    s.len() > 0 ==> !white(s[0]) && !white(s.last())
}

/// What has no white space around it stays as it is.
pub proof fn lemma_trim_trimmed(s: Seq<char>)
    requires
        trimmed(s),
    ensures
        trim(s) == s,
{
}

/// What was trimmed has no white space around it.
pub proof fn lemma_trim_is_trimmed(s: Seq<char>)
    ensures
        trimmed(trim(s)),
{
    let r = lemma_trim(s);
}

/// One more blank at the start makes no difference.
pub proof fn lemma_trim_leading_space(s: Seq<char>)
    ensures
        trim(seq![' '] + s) == trim(s),
{
    assert((seq![' '] + s).drop_first() =~= s);
}

/// Case does not touch white space, line ends or the colon, and is settled after
/// one pass.
pub proof fn lemma_lower(s: Seq<char>)
    ensures
        lower(s).len() == s.len(),
        lower(lower(s)) == lower(s),
        forall|i: int| 0 <= i < s.len() ==> white(#[trigger] lower(s)[i]) == white(s[i]),
        forall|i: int| 0 <= i < s.len() ==> (#[trigger] lower(s)[i] == ':') == (s[i] == ':'),
        forall|i: int| 0 <= i < s.len() ==> (#[trigger] lower(s)[i] == '\r') == (s[i] == '\r'),
        forall|i: int| 0 <= i < s.len() ==> (#[trigger] lower(s)[i] == '\n') == (s[i] == '\n'),
{
    assert(lower(lower(s)) =~= lower(s));
}

/// Text without CR LF in it.
pub open spec fn one_line(s: Seq<char>) -> bool {
    forall|i: int| 0 <= i && i + 1 < s.len() ==> !(#[trigger] s[i] == '\r' && s[i + 1] == '\n')
}

/// The pieces that `lines` makes hold no CR LF.
pub proof fn lemma_lines_are_lines(s: Seq<char>)
    ensures
        lines(s).len() > 0,
        forall|i: int| 0 <= i < lines(s).len() ==> one_line(#[trigger] lines(s)[i]),
    decreases s.len(),
{
    lemma_crlf_at(s);
    let k = crlf_at(s);
    if 0 <= k && k + 1 < s.len() {
        let t = s.skip(k + 2);
        lemma_lines_are_lines(t);
        assert forall|i: int| 0 <= i && i + 1 < s.take(k).len() implies !(#[trigger] s.take(k)[i]
            == '\r' && s.take(k)[i + 1] == '\n') by {
            assert(s.take(k)[i] == s[i]);
        }
        assert forall|i: int| 0 <= i < lines(s).len() implies one_line(#[trigger] lines(s)[i]) by {
            if i > 0 {
                assert(lines(s)[i] == lines(t)[i - 1]);
            }
        }
    }
}

/// A line, its CR LF and the rest are parted again into that line and the rest.
pub proof fn lemma_lines_cons(line: Seq<char>, rest: Seq<char>)
    requires
        one_line(line),
    ensures
        lines(line + seq!['\r', '\n'] + rest) == seq![line] + lines(rest),
{
    let s = line + seq!['\r', '\n'] + rest;
    lemma_crlf_at(s);
    let k = crlf_at(s);
    assert(s[line.len() as int] == '\r' && s[line.len() as int + 1] == '\n');
    assert(k <= line.len());
    if k < line.len() {
        if k + 1 < line.len() {
            assert(line[k] == s[k] && line[k + 1] == s[k + 1]);
        } else {
            assert(s[k + 1] == '\r');
        }
    }
    assert(s.take(k) =~= line);
    assert(s.skip(k + 2) =~= rest);
}

/// Text that ends with CR LF keeps its lines, whatever is appended; the empty piece after
/// its last CR LF gives way to the lines of what was appended.
pub proof fn lemma_lines_append(s: Seq<char>, t: Seq<char>)
    requires
        s.len() >= 2,
        s[s.len() - 2] == '\r',
        s[s.len() - 1] == '\n',
    ensures
        lines(s).len() >= 2,
        lines(s).last() == Seq::<char>::empty(),
        lines(s + t) == lines(s).drop_last() + lines(t),
    decreases s.len(),
{
    let n = s.len() as int;
    let k = crlf_at(s);
    let m = crlf_at(s + t);
    lemma_crlf_at(s);
    lemma_crlf_at(s + t);
    assert(k <= n - 2);
    assert((s + t)[k] == '\r' && (s + t)[k + 1] == '\n');
    assert(m <= k);
    assert(s[m] == (s + t)[m] && s[m + 1] == (s + t)[m + 1]);
    assert(m == k);
    let rest = s.skip(k + 2);
    assert((s + t).take(k) =~= s.take(k));
    assert((s + t).skip(k + 2) =~= rest + t);
    if k == n - 2 {
        assert(rest =~= Seq::<char>::empty());
        assert(rest + t =~= t);
        assert(lines(rest) =~= seq![Seq::<char>::empty()]);
        assert(lines(s) =~= seq![s.take(k), Seq::<char>::empty()]);
        assert(lines(s + t) =~= lines(s).drop_last() + lines(t));
    } else {
        assert(s[k + 1] == '\n');
        assert(rest[rest.len() - 2] == s[n - 2]);
        assert(rest[rest.len() - 1] == s[n - 1]);
        lemma_lines_append(rest, t);
        assert(lines(s).drop_last() =~= seq![s.take(k)] + lines(rest).drop_last());
        assert(lines(s + t) =~= lines(s).drop_last() + lines(t));
    }
}

/// A run without white space that is followed by white space, or by nothing, is the
/// first word.
pub proof fn lemma_first_word(w: Seq<char>, rest: Seq<char>)
    requires
        w.len() > 0,
        forall|i: int| 0 <= i < w.len() ==> !white(#[trigger] w[i]),
        rest.len() > 0 ==> white(rest[0]),
    ensures
        first_word(w + rest) == w,
        after_word(w + rest) == rest,
{
    let s = w + rest;
    assert(s[0] == w[0]);
    assert(trim_start(s) == s);
    lemma_word_len(s);
    let k = word_len(s);
    if k < w.len() {
        assert(s[k] == w[k]);
    }
    if k > w.len() {
        assert(s[w.len() as int] == rest[0]);
    }
    assert(s.take(k) =~= w);
    assert(s.skip(k) =~= rest);
}

/// A first word holds no white space.
pub proof fn lemma_first_word_is_word(s: Seq<char>)
    ensures
        forall|i: int| 0 <= i < first_word(s).len() ==> !white(#[trigger] first_word(s)[i]),
{
    lemma_word_len(trim_start(s));
}

/// So does any word.
pub proof fn lemma_nth_word_is_word(s: Seq<char>, n: nat)
    ensures
        nth_word(s, n) matches Some(w) ==> w.len() > 0 && forall|i: int|
            0 <= i < w.len() ==> !white(#[trigger] w[i]),
    decreases n,
{
    lemma_first_word_is_word(s);
    if first_word(s).len() > 0 && n > 0 {
        lemma_nth_word_is_word(after_word(s), (n - 1) as nat);
    }
}

// ---- optional and repeated text ----

/// The text that an optional string holds.
pub open spec fn opt(o: Option<String>) -> Option<Seq<char>> {
    match o {
        Some(s) => Some(s@),
        None => None,
    }
}

/// The same optional string.
pub fn copy_opt(o: &Option<String>) -> (r: Option<String>)
    ensures
        opt(r) == opt(*o),
{
    match o {
        Some(s) => Some(s.as_str().to_owned()),
        None => None,
    }
}

/// The texts that strings hold.
pub open spec fn texts(v: Seq<String>) -> Seq<Seq<char>> {
    Seq::new(v.len(), |i: int| v[i]@)
}

/// The same strings.
pub fn copy_all(v: &Vec<String>) -> (r: Vec<String>)
    ensures
        texts(r@) == texts(v@),
{
    let mut r: Vec<String> = Vec::new();
    let mut i: usize = 0;
    while i < v.len()
        invariant
            i <= v@.len(),
            r@.len() == i,
            forall|j: int| 0 <= j < i ==> (#[trigger] r@[j])@ == v@[j]@,
        decreases v@.len() - i,
    {
        r.push(v[i].as_str().to_owned());
        i = i + 1;
    }
    assert(texts(r@) =~= texts(v@));
    r
}

}
