//! Byte strings: searching, and the passage to text.

use vstd::prelude::*;
use vstd::slice::slice_subrange;
use vstd::string::*;
use vstd::utf8::*;

verus! {

/// The first place at which `pat` stands in `b`.
pub open spec fn position(b: Seq<u8>, pat: Seq<u8>) -> Option<int>
    decreases b.len(),
{
    if b.len() < pat.len() || b.len() == 0 {
        None
    } else if b.take(pat.len() as int) == pat {
        Some(0int)
    } else {
        match position(b.drop_first(), pat) {
            Some(k) => Some(k + 1),
            None => None,
        }
    }
}

/// Whether `pat` stands in `b` at `k`.
pub open spec fn stands_at(b: Seq<u8>, pat: Seq<u8>, k: int) -> bool {
    0 <= k && k + pat.len() <= b.len() && b.subrange(k, k + pat.len()) == pat
}

/// `position` is the first place at which the pattern stands, and `None` exactly
/// where it stands nowhere.
pub proof fn lemma_position(b: Seq<u8>, pat: Seq<u8>)
    requires
        pat.len() > 0,
    ensures
        match position(b, pat) {
            Some(k) => stands_at(b, pat, k) && forall|j: int| 0 <= j < k ==> !stands_at(b, pat, j),
            None => forall|j: int| !stands_at(b, pat, j),
        },
    decreases b.len(),
{
    if b.len() < pat.len() || b.len() == 0 {
    } else if b.take(pat.len() as int) == pat {
        assert(b.subrange(0, pat.len() as int) =~= b.take(pat.len() as int));
    } else {
        let t = b.drop_first();
        lemma_position(t, pat);
        assert forall|j: int| 1 <= j implies stands_at(b, pat, j) == stands_at(t, pat, j - 1) by {
            if j + pat.len() <= b.len() {
                assert(b.subrange(j, j + pat.len()) =~= t.subrange(j - 1, j - 1 + pat.len()));
            }
        }
        assert(!stands_at(b, pat, 0)) by {
            assert(b.subrange(0, pat.len() as int) =~= b.take(pat.len() as int));
        }
        assert forall|j: int| stands_at(b, pat, j) implies j >= 1 && stands_at(t, pat, j - 1) by {
        }
    }
}

/// A place with these properties is `position`.
pub proof fn lemma_position_is(b: Seq<u8>, pat: Seq<u8>, k: int)
    requires
        pat.len() > 0,
        stands_at(b, pat, k),
        forall|j: int| 0 <= j < k ==> !stands_at(b, pat, j),
    ensures
        position(b, pat) == Some(k),
{
    lemma_position(b, pat);
}

/// Bytes that arrive later never move a place that was already found.
pub proof fn law_position_is_stable(b: Seq<u8>, more: Seq<u8>, pat: Seq<u8>)
    requires
        pat.len() > 0,
        position(b, pat) is Some,
    ensures
        position(b + more, pat) == position(b, pat),
{
    lemma_position(b, pat);
    let k = position(b, pat)->0;
    assert((b + more).subrange(k, k + pat.len()) =~= b.subrange(k, k + pat.len()));
    assert forall|j: int| 0 <= j < k implies !stands_at(b + more, pat, j) by {
        assert((b + more).subrange(j, j + pat.len()) =~= b.subrange(j, j + pat.len()));
        assert(!stands_at(b, pat, j));
    }
    lemma_position_is(b + more, pat, k);
}

/// Whether two byte slices are equal.
pub fn same_bytes(a: &[u8], b: &[u8]) -> (r: bool)
    ensures
        r == (a@ == b@),
{
    if a.len() != b.len() {
        return false;
    }
    let mut i: usize = 0;
    while i < a.len()
        invariant
            a@.len() == b@.len(),
            i <= a@.len(),
            forall|j: int| 0 <= j < i ==> a@[j] == b@[j],
        decreases a@.len() - i,
    {
        if a[i] != b[i] {
            return false;
        }
        i = i + 1;
    }
    assert(a@ =~= b@);
    true
}

/// The first place at which `pat` stands in `b`.
pub fn find_bytes(b: &[u8], pat: &[u8]) -> (r: Option<usize>)
    requires
        pat@.len() > 0,
    ensures
        match r {
            Some(k) => position(b@, pat@) == Some(k as int) && k + pat@.len() <= b@.len(),
            None => position(b@, pat@) is None,
        },
{
    proof {
        lemma_position(b@, pat@);
    }
    if b.len() < pat.len() {
        return None;
    }
    let last: usize = b.len() - pat.len();
    let mut i: usize = 0;
    while i <= last
        invariant
            pat@.len() > 0,
            last == b.len() - pat.len(),
            i <= last + 1,
            forall|j: int| 0 <= j < i ==> !stands_at(b@, pat@, j),
        decreases last + 1 - i,
    {
        if same_bytes(slice_subrange(b, i, i + pat.len()), pat) {
            proof {
                lemma_position_is(b@, pat@, i as int);
            }
            return Some(i);
        }
        i = i + 1;
    }
    proof {
        assert forall|j: int| !stands_at(b@, pat@, j) by {
        }
        lemma_position(b@, pat@);
    }
    None
}

/// The line end of the wire formats: CR LF.
pub open spec fn crlf() -> Seq<u8> {
    seq![13u8, 10u8]
}

/// The end of a message head: CR LF CR LF.
pub open spec fn blank_line() -> Seq<u8> {
    seq![13u8, 10u8, 13u8, 10u8]
}

/// The first place of CR LF.
pub fn find_line_end(b: &[u8]) -> (r: Option<usize>)
    ensures
        match r {
            Some(k) => position(b@, crlf()) == Some(k as int) && k + 2 <= b@.len(),
            None => position(b@, crlf()) is None,
        },
{
    let pat: [u8; 2] = [13u8, 10u8];
    assert(pat@ =~= crlf());
    find_bytes(b, pat.as_slice())
}

/// The first place of CR LF CR LF.
pub fn find_blank_line(b: &[u8]) -> (r: Option<usize>)
    ensures
        match r {
            Some(k) => position(b@, blank_line()) == Some(k as int) && k + 4 <= b@.len(),
            None => position(b@, blank_line()) is None,
        },
{
    let pat: [u8; 4] = [13u8, 10u8, 13u8, 10u8];
    assert(pat@ =~= blank_line());
    find_bytes(b, pat.as_slice())
}

/// What stands before the first line end: all of `b` where there is none.
pub open spec fn first_line(b: Seq<u8>) -> Seq<u8> {
    match position(b, crlf()) {
        Some(k) => b.take(k),
        None => b,
    }
}

/// What stands before the first line end.
pub fn take_first_line(b: &[u8]) -> (r: &[u8])
    ensures
        r@ == first_line(b@),
{
    match find_line_end(b) {
        Some(k) => slice_subrange(b, 0, k),
        None => b,
    }
}

/// The line feed.
pub open spec fn newline() -> Seq<u8> {
    seq![10u8]
}

/// What stands before the first line feed: all of `b` where there is none.
pub open spec fn raw_line(b: Seq<u8>) -> Seq<u8> {
    match position(b, newline()) {
        Some(k) => b.take(k),
        None => b,
    }
}

/// The first line feed.
pub fn find_newline(b: &[u8]) -> (r: Option<usize>)
    ensures
        match r {
            Some(k) => position(b@, newline()) == Some(k as int) && k < b@.len(),
            None => position(b@, newline()) is None,
        },
{
    let pat: [u8; 1] = [10u8];
    assert(pat@ =~= newline());
    proof {
        lemma_position(b@, newline());
    }
    find_bytes(b, pat.as_slice())
}

/// What stands before the first line feed.
pub fn take_raw_line(b: &[u8]) -> (r: &[u8])
    ensures
        r@ == raw_line(b@),
{
    match find_newline(b) {
        Some(k) => slice_subrange(b, 0, k),
        None => b,
    }
}

// ---- text ----

/// The text that the bytes encode, read by `std::str::from_utf8`: there is one
/// exactly where the bytes are valid UTF-8, and its bytes are these.
#[verifier::external_body]
fn utf8_text(b: &[u8]) -> (r: Option<&str>)
    ensures
        r is Some <==> valid_utf8(b@),
        r matches Some(s) ==> s.spec_bytes() == b@,
{
    std::str::from_utf8(b).ok()
}

/// What `String::from_utf8_lossy` makes of the bytes.
pub uninterp spec fn utf8_lossy(b: Seq<u8>) -> Seq<char>;

/// The text of the bytes, with what is not UTF-8 replaced, by
/// `String::from_utf8_lossy`: valid UTF-8 is decoded as it stands.
#[verifier::external_body]
pub(crate) fn lossy_text(b: &[u8]) -> (s: String)
    ensures
        s@ == utf8_lossy(b@),
        valid_utf8(b@) ==> s@ == decode_utf8(b@),
{
    String::from_utf8_lossy(b).into_owned()
}

/// The characters that the bytes encode, or `None` where they are not UTF-8.
pub fn utf8_chars(b: &[u8]) -> (r: Option<Vec<char>>)
    ensures
        match r {
            Some(v) => valid_utf8(b@) && v@ == decode_utf8(b@),
            None => !valid_utf8(b@),
        },
{
    match utf8_text(b) {
        Some(s) => {
            proof {
                encode_utf8_decode_utf8(s@);
            }
            Some(crate::text::chars_of(s))
        },
        None => None,
    }
}

/// The characters of the bytes, with what is not UTF-8 replaced.
pub fn lossy_chars(b: &[u8]) -> (v: Vec<char>)
    ensures
        v@ == utf8_lossy(b@),
        valid_utf8(b@) ==> v@ == decode_utf8(b@),
{
    let s = lossy_text(b);
    crate::text::chars_of(s.as_str())
}

/// The UTF-8 bytes of `s`.
pub fn bytes_of(s: &str) -> (v: Vec<u8>)
    ensures
        v@ == encode_utf8(s@),
{
    vstd::slice::slice_to_vec(s.as_bytes())
}

/// Appends `more` to `out`.
pub fn append_bytes(out: &mut Vec<u8>, more: &[u8])
    ensures
        final(out)@ == old(out)@ + more@,
{
    let ghost start = out@;
    let mut i: usize = 0;
    while i < more.len()
        invariant
            i <= more@.len(),
            out@ == start + more@.take(i as int),
        decreases more@.len() - i,
    {
        out.push(more[i]);
        i = i + 1;
        assert(out@ =~= start + more@.take(i as int));
    }
    assert(more@.take(more@.len() as int) =~= more@);
}

}
