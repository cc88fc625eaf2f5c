//! What holds of the request codec as a whole: a request that was parsed and rebuilt
//! reads back as the same request, with its framing headers set anew.

use crate::bytes;
use crate::http;
use crate::http::ReqHeadView;
use crate::number;
use crate::text;
use vstd::prelude::*;
use vstd::string::*;
use vstd::utf8::*;

verus! {

/// A word: some text, without white space.
pub open spec fn is_word(s: Seq<char>) -> bool {
    s.len() > 0 && forall|i: int| 0 <= i < s.len() ==> !text::white(#[trigger] s[i])
}

/// A header as parsing yields it: a lowercased name without a colon, neither part
/// with white space around it or a line end in it.
pub open spec fn clean_header(h: (Seq<char>, Seq<char>)) -> bool {
    &&& text::lower(h.0) == h.0
    &&& text::trimmed(h.0)
    &&& text::trimmed(h.1)
    &&& text::one_line(h.0)
    &&& text::one_line(h.1)
    &&& forall|i: int| 0 <= i < h.0.len() ==> #[trigger] h.0[i] != ':'
}

/// Headers as parsing yields them.
pub open spec fn clean_headers(h: Seq<(Seq<char>, Seq<char>)>) -> bool {
    forall|i: int| 0 <= i < h.len() ==> clean_header(#[trigger] h[i])
}

/// A request head as parsing yields it.
pub open spec fn clean(h: ReqHeadView) -> bool {
    is_word(h.method) && is_word(h.target) && clean_headers(h.headers)
}

proof fn lemma_sub_one_line(s: Seq<char>, a: int, b: int)
    requires
        text::one_line(s),
        0 <= a <= b <= s.len(),
    ensures
        text::one_line(s.subrange(a, b)),
{
    let t = s.subrange(a, b);
    assert forall|i: int| 0 <= i && i + 1 < t.len() implies !(#[trigger] t[i] == '\r' && t[i + 1]
        == '\n') by {
        assert(t[i] == s[a + i]);
        assert(t[i + 1] == s[a + i + 1]);
    }
}

proof fn lemma_header_of_is_clean(line: Seq<char>)
    requires
        text::one_line(line),
    ensures
        http::header_of(line) matches Some(h) ==> clean_header(h),
{
    text::lemma_index_of(line, ':');
    if let Some(p) = text::split_once(line, ':') {
        let k = text::index_of(line, ':');
        let r = text::lemma_trim(p.0);
        assert(p.0.subrange(r.0, r.1) =~= line.subrange(r.0, r.1));
        lemma_sub_one_line(line, r.0, r.1);
        text::lemma_trim_is_trimmed(p.0);
        let n = text::trim(p.0);
        text::lemma_lower(n);
        let low = text::lower(n);
        assert forall|i: int| 0 <= i && i + 1 < low.len() implies !(#[trigger] low[i] == '\r'
            && low[i + 1] == '\n') by {
            assert((low[i] == '\r') == (n[i] == '\r'));
            assert((low[i + 1] == '\n') == (n[i + 1] == '\n'));
        }
        assert forall|i: int| 0 <= i < low.len() implies #[trigger] low[i] != ':' by {
            assert(n[i] == line[r.0 + i]);
        }
        if low.len() > 0 {
            assert(text::white(low[0]) == text::white(n[0]));
            assert(text::white(low[low.len() - 1]) == text::white(n[n.len() - 1]));
        }
        let q = text::lemma_trim(p.1);
        assert(p.1.subrange(q.0, q.1) =~= line.subrange(k + 1 + q.0, k + 1 + q.1));
        lemma_sub_one_line(line, k + 1 + q.0, k + 1 + q.1);
        text::lemma_trim_is_trimmed(p.1);
    }
}

proof fn lemma_headers_of_are_clean(ls: Seq<Seq<char>>)
    requires
        forall|i: int| 0 <= i < ls.len() ==> text::one_line(#[trigger] ls[i]),
    ensures
        clean_headers(http::headers_of(ls)),
    decreases ls.len(),
{
    if ls.len() == 0 || ls[0].len() == 0 {
    } else {
        let t = ls.drop_first();
        assert forall|i: int| 0 <= i < t.len() implies text::one_line(#[trigger] t[i]) by {
            assert(t[i] == ls[i + 1]);
        }
        lemma_headers_of_are_clean(t);
        assert(text::one_line(ls[0]));
        lemma_header_of_is_clean(ls[0]);
    }
}

/// Whatever bytes were parsed, the head that came out is clean.
pub proof fn law_parsed_heads_are_clean(b: Seq<u8>)
    ensures
        http::parsed_head(b) matches Some(h) ==> clean(h),
{
    if valid_utf8(b) {
        let s = decode_utf8(b);
        let ls = text::lines(s);
        text::lemma_lines_are_lines(s);
        text::lemma_nth_word_is_word(ls[0], 0);
        text::lemma_nth_word_is_word(ls[0], 1);
        let t = ls.drop_first();
        assert forall|i: int| 0 <= i < t.len() implies text::one_line(#[trigger] t[i]) by {
            assert(t[i] == ls[i + 1]);
        }
        lemma_headers_of_are_clean(t);
    }
}

// ---- rebuilding keeps heads clean ----

proof fn lemma_kept(h: Seq<(Seq<char>, Seq<char>)>)
    ensures
        clean_headers(h) ==> clean_headers(http::kept(h)),
        forall|i: int| 0 <= i < http::kept(h).len() ==> !http::replaced((#[trigger] http::kept(h)[i]).0),
    decreases h.len(),
{
    if h.len() > 0 {
        let t = h.drop_last();
        lemma_kept(t);
        let k = http::kept(t);
        if clean_headers(h) {
            assert forall|i: int| 0 <= i < t.len() implies clean_header(#[trigger] t[i]) by {
                assert(t[i] == h[i]);
            }
            assert(clean_header(h[h.len() - 1]));
        }
    }
}

pub proof fn lemma_digits_are_clean(n: nat)
    ensures
        text::trimmed(number::digits(n)),
        text::one_line(number::digits(n)),
{
    number::lemma_digits(n);
    let d = number::digits(n);
    assert(number::is_digit(d[0]));
    assert(number::is_digit(d[d.len() - 1]));
    assert forall|i: int| 0 <= i && i + 1 < d.len() implies !(#[trigger] d[i] == '\r' && d[i + 1]
        == '\n') by {
        assert(number::is_digit(d[i]));
    }
}

proof fn lemma_rebuilt_are_clean(h: Seq<(Seq<char>, Seq<char>)>, n: nat)
    requires
        clean_headers(h),
    ensures
        clean_headers(http::rebuilt_headers(h, n)),
{
    lemma_kept(h);
    lemma_digits_are_clean(n);
    reveal_strlit("content-length");
    reveal_strlit("connection");
    reveal_strlit("close");
    assert(text::lower("content-length"@) =~= "content-length"@);
    assert(text::lower("connection"@) =~= "connection"@);
    assert(clean_header(("content-length"@, number::digits(n))));
    assert(clean_header(("connection"@, "close"@)));
}

proof fn lemma_header_line(h: (Seq<char>, Seq<char>))
    requires
        clean_header(h),
    ensures
        http::header_of(http::header_line(h)) == Some(h),
        text::one_line(http::header_line(h)),
        http::header_line(h).len() > 0,
{
    reveal_strlit(": ");
    let line = http::header_line(h);
    let k = h.0.len() as int;
    assert(line[k] == ':');
    assert forall|j: int| 0 <= j < k implies line[j] != ':' by {
        assert(line[j] == h.0[j]);
    }
    text::lemma_index_of_is(line, ':', k);
    assert(line.take(k) =~= h.0);
    assert(line.skip(k + 1) =~= seq![' '] + h.1);
    text::lemma_trim_leading_space(h.1);
    text::lemma_trim_trimmed(h.0);
    text::lemma_trim_trimmed(h.1);
    assert forall|i: int| 0 <= i && i + 1 < line.len() implies !(#[trigger] line[i] == '\r' && line[i
        + 1] == '\n') by {
        if i + 1 < k {
            assert(line[i] == h.0[i] && line[i + 1] == h.0[i + 1]);
        } else if i >= k + 2 {
            assert(line[i] == h.1[i - k - 2] && line[i + 1] == h.1[i + 1 - k - 2]);
        }
    }
}

// ---- lines and back ----

pub proof fn lemma_unlines_cons(ls: Seq<Seq<char>>)
    requires
        ls.len() > 0,
    ensures
        http::unlines(ls) == ls[0] + seq!['\r', '\n'] + http::unlines(ls.drop_first()),
    decreases ls.len(),
{
    reveal_strlit("\r\n");
    assert("\r\n"@ =~= seq!['\r', '\n']);
    let front = ls.drop_last();
    if front.len() == 0 {
        assert(ls.drop_first() =~= front);
        assert(http::unlines(front) =~= Seq::<char>::empty());
        assert(http::unlines(ls) =~= ls[0] + seq!['\r', '\n'] + http::unlines(ls.drop_first()));
    } else {
        lemma_unlines_cons(front);
        assert(ls.drop_first().drop_last() =~= front.drop_first());
        assert(ls.drop_first().last() == ls.last());
        assert(front[0] == ls[0]);
        assert(http::unlines(ls) =~= ls[0] + seq!['\r', '\n'] + http::unlines(ls.drop_first()));
    }
}

pub proof fn lemma_lines_of_unlines(ls: Seq<Seq<char>>)
    requires
        forall|i: int| 0 <= i < ls.len() ==> text::one_line(#[trigger] ls[i]),
    ensures
        text::lines(http::unlines(ls)) == ls.push(Seq::<char>::empty()),
    decreases ls.len(),
{
    if ls.len() == 0 {
        assert(http::unlines(ls) =~= Seq::<char>::empty());
        assert(text::lines(Seq::<char>::empty()) =~= seq![Seq::<char>::empty()]);
        assert(ls.push(Seq::<char>::empty()) =~= seq![Seq::<char>::empty()]);
    } else {
        let t = ls.drop_first();
        assert forall|i: int| 0 <= i < t.len() implies text::one_line(#[trigger] t[i]) by {
            assert(t[i] == ls[i + 1]);
        }
        lemma_unlines_cons(ls);
        lemma_lines_of_unlines(t);
        assert(text::one_line(ls[0]));
        text::lemma_lines_cons(ls[0], http::unlines(t));
        assert(seq![ls[0]] + t.push(Seq::<char>::empty()) =~= ls.push(Seq::<char>::empty()));
    }
}

/// The header lines of `hs`, then the blank line and what follows it.
spec fn tail_lines(hs: Seq<(Seq<char>, Seq<char>)>) -> Seq<Seq<char>> {
    hs.map_values(|x: (Seq<char>, Seq<char>)| http::header_line(x)) + seq![
        Seq::<char>::empty(),
        Seq::<char>::empty(),
    ]
}

proof fn lemma_headers_of_tail(hs: Seq<(Seq<char>, Seq<char>)>)
    requires
        clean_headers(hs),
    ensures
        http::headers_of(tail_lines(hs)) == hs,
    decreases hs.len(),
{
    let ls = tail_lines(hs);
    if hs.len() == 0 {
        assert(ls[0].len() == 0);
        assert(hs =~= Seq::<(Seq<char>, Seq<char>)>::empty());
    } else {
        let t = hs.drop_first();
        assert forall|i: int| 0 <= i < t.len() implies clean_header(#[trigger] t[i]) by {
            assert(t[i] == hs[i + 1]);
        }
        lemma_headers_of_tail(t);
        assert(clean_header(hs[0]));
        lemma_header_line(hs[0]);
        assert(ls[0] == http::header_line(hs[0]));
        assert(ls.drop_first() =~= tail_lines(t));
        assert(seq![hs[0]] + t =~= hs);
    }
}

proof fn lemma_request_line(h: ReqHeadView)
    requires
        is_word(h.method),
        is_word(h.target),
    ensures
        text::nth_word(http::request_line(h), 0) == Some(h.method),
        text::nth_word(http::request_line(h), 1) == Some(h.target),
        text::one_line(http::request_line(h)),
        http::request_line(h).len() > 0,
{
    reveal_strlit(" ");
    reveal_strlit(" HTTP/1.1");
    let line = http::request_line(h);
    let after = " "@ + h.target + " HTTP/1.1"@;
    assert(line =~= h.method + after);
    text::lemma_first_word(h.method, after);
    assert(text::nth_word(line, 0) == Some(h.method));
    let inner = h.target + " HTTP/1.1"@;
    assert(after.drop_first() =~= inner);
    text::lemma_first_word(h.target, " HTTP/1.1"@);
    assert(!text::white(h.target[0]));
    assert(inner[0] == h.target[0]);
    assert(text::trim_start(after) == text::trim_start(inner));
    assert(text::first_word(after) == h.target);
    assert(text::nth_word(after, 0) == Some(h.target));
    reveal_with_fuel(text::nth_word, 2);
    assert(text::nth_word(line, 1) == Some(h.target));
    let m = h.method.len() as int;
    let t = h.target.len() as int;
    assert forall|i: int| 0 <= i && i + 1 < line.len() implies !(#[trigger] line[i] == '\r' && line[i
        + 1] == '\n') by {
        if i < m {
            assert(line[i] == h.method[i]);
            assert(!text::white(h.method[i]));
        } else if m + 1 <= i < m + 1 + t {
            assert(line[i] == h.target[i - m - 1]);
            assert(!text::white(h.target[i - m - 1]));
        }
    }
}

proof fn lemma_request_lines(h: ReqHeadView, n: nat)
    requires
        clean(h),
    ensures
        ({
            let ls = http::request_lines(h, n);
            &&& ls.len() >= 2
            &&& ls[0] == http::request_line(h)
            &&& ls.last() == Seq::<char>::empty()
            &&& ls.push(Seq::<char>::empty()).drop_first() == tail_lines(
                http::rebuilt_headers(h.headers, n),
            )
            &&& forall|i: int| 0 <= i < ls.len() ==> text::one_line(#[trigger] ls[i])
            &&& forall|i: int| 0 <= i < ls.len() - 1 ==> (#[trigger] ls[i]).len() > 0
        }),
{
    let ls = http::request_lines(h, n);
    let hs = http::rebuilt_headers(h.headers, n);
    lemma_request_line(h);
    lemma_rebuilt_are_clean(h.headers, n);
    assert(ls.push(Seq::<char>::empty()).drop_first() =~= tail_lines(hs));
    assert forall|i: int| 0 <= i < ls.len() implies text::one_line(#[trigger] ls[i]) && (i < ls.len()
        - 1 ==> ls[i].len() > 0) by {
        if 0 < i < ls.len() - 1 {
            assert(ls[i] == http::header_line(hs[i - 1]));
            assert(clean_header(hs[i - 1]));
            lemma_header_line(hs[i - 1]);
        }
    }
}

/// A request that is rebuilt around a body from a clean head reads back with the same
/// method and target, and with the headers that were kept plus the new framing.
pub proof fn law_rebuilt_request_reads_back(h: ReqHeadView, n: nat)
    requires
        clean(h),
    ensures
        http::parsed_head(encode_utf8(http::request_text(h, n))) == Some(
            ReqHeadView {
                method: h.method,
                target: h.target,
                headers: http::rebuilt_headers(h.headers, n),
            },
        ),
{
    let s = http::request_text(h, n);
    encode_utf8_valid_utf8(s);
    encode_utf8_decode_utf8(s);
    let ls = http::request_lines(h, n);
    let hs = http::rebuilt_headers(h.headers, n);
    lemma_request_lines(h, n);
    lemma_request_line(h);
    lemma_lines_of_unlines(ls);
    assert(text::lines(s)[0] == http::request_line(h));
    lemma_rebuilt_are_clean(h.headers, n);
    lemma_headers_of_tail(hs);
}

proof fn lemma_kept_of_kept(h: Seq<(Seq<char>, Seq<char>)>)
    requires
        forall|i: int| 0 <= i < h.len() ==> !http::replaced((#[trigger] h[i]).0),
    ensures
        http::kept(h) == h,
    decreases h.len(),
{
    if h.len() > 0 {
        let t = h.drop_last();
        assert forall|i: int| 0 <= i < t.len() implies !http::replaced((#[trigger] t[i]).0) by {
            assert(t[i] == h[i]);
        }
        lemma_kept_of_kept(t);
        assert(!http::replaced(h[h.len() - 1].0));
        assert(t.push(h.last()) =~= h);
    } else {
        assert(http::kept(h) =~= h);
    }
}

/// Rebuilding a rebuilt request changes nothing: what reads back of it is rebuilt, around
/// any body, as the head that it was made from.
pub proof fn law_rebuilding_twice_is_rebuilding_once(h: ReqHeadView, n: nat, m: nat)
    requires
        clean(h),
    ensures
        ({
            let again = http::parsed_head(encode_utf8(http::request_text(h, n)));
            &&& again is Some
            &&& clean(again->0)
            &&& http::request_text(again->0, m) == http::request_text(h, m)
        }),
{
    law_rebuilt_request_reads_back(h, n);
    law_parsed_heads_are_clean(encode_utf8(http::request_text(h, n)));
    let k = http::kept(h.headers);
    let cl = ("content-length"@, number::digits(n));
    let co = ("connection"@, "close"@);
    let hs = http::rebuilt_headers(h.headers, n);
    lemma_kept(h.headers);
    lemma_kept_of_kept(k);
    assert(hs.drop_last() =~= k.push(cl));
    assert(k.push(cl).drop_last() =~= k);
    assert(http::kept(k.push(cl)) == http::kept(k));
    assert(http::kept(hs) == k);
}

// ---- what follows a head ----

proof fn lemma_headers_stop(p: Seq<Seq<char>>, x: Seq<Seq<char>>, y: Seq<Seq<char>>)
    requires
        p.len() > 0,
        p.last().len() == 0,
    ensures
        http::headers_of(p + x) == http::headers_of(p + y),
    decreases p.len(),
{
    assert((p + x)[0] == p[0] && (p + y)[0] == p[0]);
    if p[0].len() > 0 {
        let t = p.drop_first();
        assert(p.len() > 1);
        assert(t.last() == p.last());
        lemma_headers_stop(t, x, y);
        assert((p + x).drop_first() =~= t + x);
        assert((p + y).drop_first() =~= t + y);
    }
}

proof fn lemma_head_stops(s: Seq<char>, t: Seq<char>)
    requires
        s.len() >= 4,
        s.skip(s.len() - 4) == seq!['\r', '\n', '\r', '\n'],
    ensures
        http::head_of(s + t) == http::head_of(s),
{
    let n = s.len() as int;
    let end = s.skip(n - 4);
    let front = s.take(n - 2);
    let sep = seq!['\r', '\n'];
    assert(s[n - 4] == end[0] && s[n - 3] == end[1] && s[n - 2] == end[2] && s[n - 1] == end[3]);
    text::lemma_lines_append(s, t);
    text::lemma_lines_append(front, sep);
    text::lemma_lines_cons(Seq::<char>::empty(), Seq::<char>::empty());
    assert(s =~= front + sep);
    assert(Seq::<char>::empty() + sep + Seq::<char>::empty() =~= sep);
    assert(text::lines(Seq::<char>::empty()) =~= seq![Seq::<char>::empty()]);
    let ls = text::lines(s);
    let p = ls.drop_last();
    assert(ls =~= text::lines(front).drop_last() + seq![Seq::<char>::empty(), Seq::<char>::empty()]);
    assert(p.last().len() == 0);
    assert(p.len() >= 2);
    let rest = p.drop_first();
    assert(rest.last() == p.last());
    assert(ls =~= p + seq![ls.last()]);
    assert(ls.drop_first() =~= rest + seq![ls.last()]);
    assert((p + text::lines(t)).drop_first() =~= rest + text::lines(t));
    lemma_headers_stop(rest, seq![ls.last()], text::lines(t));
}

/// What follows a head on the connection has no part in it: bytes that end with the blank
/// line parse the same whatever valid UTF-8 is appended to them.
pub proof fn law_what_follows_has_no_part_in_the_head(b: Seq<u8>, tail: Seq<u8>)
    requires
        b.len() >= 4,
        b.skip(b.len() - 4) == bytes::blank_line(),
        valid_utf8(tail),
    ensures
        http::parsed_head(b + tail) == http::parsed_head(b),
{
    let n = b.len() as int;
    let all = b + tail;
    assert(all.subrange(0, n) =~= b);
    assert(all.subrange(n, all.len() as int) =~= tail);
    if valid_utf8(b) {
        valid_utf8_concat(b, tail);
    }
    if valid_utf8(all) {
        if tail.len() == 0 {
            assert(all =~= b);
            is_char_boundary_start_end_of_seq(all);
        } else {
            is_char_boundary_start_end_of_seq(tail);
            is_char_boundary_iff_not_is_continuation_byte(tail, 0);
            assert(all[n] == tail[0]);
            is_char_boundary_iff_not_is_continuation_byte(all, n);
        }
        valid_utf8_split(all, n);
        decode_utf8_split(all, n);
        let end = b.skip(n - 4);
        assert(b[n - 4] == end[0]);
        assert(!is_continuation_byte(13u8)) by (bit_vector);
        is_char_boundary_iff_not_is_continuation_byte(b, n - 4);
        valid_utf8_split(b, n - 4);
        decode_utf8_split(b, n - 4);
        assert(b.subrange(n - 4, n) =~= bytes::blank_line());
        let chars = seq!['\r', '\n', '\r', '\n'];
        assert(encode_utf8(chars) =~= bytes::blank_line()) by {
            let sep = seq!['\r', '\n'];
            lemma_encode_sep();
            lemma_encode_concat(sep, sep);
            assert(sep + sep =~= chars);
        }
        encode_utf8_decode_utf8(chars);
        let s = decode_utf8(b);
        assert(s.skip(s.len() - 4) =~= chars);
        lemma_head_stops(s, decode_utf8(tail));
    }
}

// ---- lookups in a rebuilt head ----

proof fn lemma_header_value_push(
    h: Seq<(Seq<char>, Seq<char>)>,
    x: (Seq<char>, Seq<char>),
    name: Seq<char>,
)
    ensures
        http::header_value(h.push(x), name) == (match http::header_value(h, name) {
            Some(v) => Some(v),
            None => if x.0 == name {
                Some(x.1)
            } else {
                None
            },
        }),
    decreases h.len(),
{
    if h.len() == 0 {
        assert(h.push(x).drop_first() =~= h);
    } else {
        lemma_header_value_push(h.drop_first(), x, name);
        assert(h.push(x).drop_first() =~= h.drop_first().push(x));
        assert(h.push(x)[0] == h[0]);
    }
}

proof fn lemma_header_value_kept(h: Seq<(Seq<char>, Seq<char>)>, name: Seq<char>)
    ensures
        http::header_value(http::kept(h), name) == (if http::replaced(name) {
            None
        } else {
            http::header_value(h, name)
        }),
    decreases h.len(),
{
    if h.len() > 0 {
        let t = h.drop_last();
        lemma_header_value_kept(t, name);
        assert(t.push(h.last()) =~= h);
        lemma_header_value_push(t, h.last(), name);
        if !http::replaced(h.last().0) {
            lemma_header_value_push(http::kept(t), h.last(), name);
        }
    }
}

/// A rebuilt head announces exactly the length of its body, closes the connection,
/// says nothing of a transfer encoding, and answers every other header as before.
pub proof fn law_rebuilt_headers(h: Seq<(Seq<char>, Seq<char>)>, n: nat, name: Seq<char>)
    requires
        n <= usize::MAX,
    ensures
        http::announced_length(http::rebuilt_headers(h, n)) == Some(n),
        http::header_value(http::rebuilt_headers(h, n), "connection"@) == Some("close"@),
        http::header_value(http::rebuilt_headers(h, n), "transfer-encoding"@) is None,
        !http::replaced(name) ==> http::header_value(http::rebuilt_headers(h, n), name)
            == http::header_value(h, name),
{
    let k = http::kept(h);
    let cl = ("content-length"@, number::digits(n));
    let co = ("connection"@, "close"@);
    reveal_strlit("content-length");
    reveal_strlit("connection");
    reveal_strlit("transfer-encoding");
    assert("content-length"@.len() != "connection"@.len());
    assert("content-length"@.len() != "transfer-encoding"@.len());
    assert("connection"@.len() != "transfer-encoding"@.len());
    lemma_header_value_push(k, cl, "content-length"@);
    lemma_header_value_push(k.push(cl), co, "content-length"@);
    lemma_header_value_kept(h, "content-length"@);
    lemma_header_value_push(k, cl, "connection"@);
    lemma_header_value_push(k.push(cl), co, "connection"@);
    lemma_header_value_kept(h, "connection"@);
    lemma_header_value_push(k, cl, "transfer-encoding"@);
    lemma_header_value_push(k.push(cl), co, "transfer-encoding"@);
    lemma_header_value_kept(h, "transfer-encoding"@);
    lemma_header_value_push(k, cl, name);
    lemma_header_value_push(k.push(cl), co, name);
    lemma_header_value_kept(h, name);
    lemma_digits_are_clean(n);
    text::lemma_trim_trimmed(number::digits(n));
    number::law_decimal_round_trip(n, usize::MAX as nat);
}

// ---- where a rebuilt head ends ----

/// Bytes without CR LF in them.
pub open spec fn one_line_bytes(b: Seq<u8>) -> bool {
    forall|i: int| 0 <= i && i + 1 < b.len() ==> !(#[trigger] b[i] == 13 && b[i + 1] == 10)
}

pub proof fn lemma_encode_concat(a: Seq<char>, b: Seq<char>)
    ensures
        encode_utf8(a + b) == encode_utf8(a) + encode_utf8(b),
    decreases a.len(),
{
    if a.len() == 0 {
        assert(a + b =~= b);
        assert(encode_utf8(a) + encode_utf8(b) =~= encode_utf8(b));
    } else {
        lemma_encode_concat(a.drop_first(), b);
        assert((a + b).drop_first() =~= a.drop_first() + b);
        assert(encode_utf8(a + b) =~= encode_utf8(a) + encode_utf8(b));
    }
}

proof fn lemma_scalar_bytes(c: char)
    ensures
        ({
            let e = encode_scalar(c as u32);
            &&& e.len() > 0
            &&& c == '\r' ==> e == seq![13u8]
            &&& c == '\n' ==> e == seq![10u8]
            &&& c != '\r' ==> forall|i: int| 0 <= i < e.len() ==> #[trigger] e[i] != 13
            &&& c != '\n' ==> forall|i: int| 0 <= i < e.len() ==> #[trigger] e[i] != 10
        }),
{
    let s = c as u32;
    char_is_scalar(c);
    if has_width_1_encoding(s) {
        assert(leading_byte_width_1(s) == s as u8) by (bit_vector)
            requires
                has_width_1_encoding(s),
        ;
        assert(encode_scalar(s) =~= seq![s as u8]);
    } else if has_width_2_encoding(s) {
        assert(leading_byte_width_2(s) >= 0x80 && last_continuation_byte(s) >= 0x80) by (bit_vector)
            requires
                has_width_2_encoding(s),
        ;
    } else if has_width_3_encoding(s) {
        assert(leading_byte_width_3(s) >= 0x80 && second_last_continuation_byte(s) >= 0x80
            && last_continuation_byte(s) >= 0x80) by (bit_vector)
            requires
                has_width_3_encoding(s),
        ;
    } else {
        assert(leading_byte_width_4(s) >= 0x80 && third_last_continuation_byte(s) >= 0x80
            && second_last_continuation_byte(s) >= 0x80 && last_continuation_byte(s) >= 0x80)
            by (bit_vector)
            requires
                has_width_4_encoding(s),
        ;
    }
}

/// A first byte 10 comes from a line feed only.
proof fn lemma_first_byte(s: Seq<char>)
    requires
        s.len() > 0,
    ensures
        encode_utf8(s).len() > 0,
        encode_utf8(s)[0] == 10 ==> s[0] == '\n',
        encode_utf8(s)[0] == 13 ==> s[0] == '\r',
{
    lemma_scalar_bytes(s[0]);
}

pub proof fn lemma_one_line_bytes(s: Seq<char>)
    requires
        text::one_line(s),
    ensures
        one_line_bytes(encode_utf8(s)),
    decreases s.len(),
{
    if s.len() > 0 {
        let t = s.drop_first();
        assert forall|i: int| 0 <= i && i + 1 < t.len() implies !(#[trigger] t[i] == '\r' && t[i
            + 1] == '\n') by {
            assert(t[i] == s[i + 1]);
            assert(t[i + 1] == s[i + 2]);
        }
        lemma_one_line_bytes(t);
        lemma_scalar_bytes(s[0]);
        let e = encode_scalar(s[0] as u32);
        let r = encode_utf8(t);
        let b = encode_utf8(s);
        assert(b == e + r);
        assert forall|i: int| 0 <= i && i + 1 < b.len() implies !(#[trigger] b[i] == 13 && b[i + 1]
            == 10) by {
            if i + 1 < e.len() {
                assert(b[i] == e[i]);
            } else if i + 1 == e.len() {
                assert(b[i] == e[i]);
                if b[i] == 13 {
                    assert(s[0] == '\r');
                    if t.len() > 0 {
                        lemma_first_byte(t);
                        assert(s[1] == t[0]);
                        assert(b[i + 1] == r[0]);
                    }
                }
            } else {
                assert(b[i] == r[i - e.len()]);
                assert(b[i + 1] == r[i + 1 - e.len()]);
            }
        }
    }
}

/// The first line of bytes is the one before the first CR LF.
pub proof fn lemma_first_line(line: Seq<u8>, rest: Seq<u8>)
    requires
        one_line_bytes(line),
    ensures
        bytes::first_line(line + seq![13u8, 10u8] + rest) == line,
{
    let b = line + seq![13u8, 10u8] + rest;
    let pat = bytes::crlf();
    let n = line.len() as int;
    assert(b.subrange(n, n + 2) =~= pat);
    assert forall|j: int| 0 <= j < n implies !bytes::stands_at(b, pat, j) by {
        if bytes::stands_at(b, pat, j) {
            let w = b.subrange(j, j + 2);
            assert(w[0] == b[j] && w[1] == b[j + 1]);
            if j + 1 < n {
                assert(line[j] == b[j] && line[j + 1] == b[j + 1]);
            } else {
                assert(b[j + 1] == 13);
            }
        }
    }
    bytes::lemma_position_is(b, pat, n);
    assert(b.take(n) =~= line);
}

/// Past one line and its CR LF, the blank line is either right there or further on.
proof fn lemma_blank_line_step(line: Seq<u8>, rest: Seq<u8>)
    requires
        one_line_bytes(line),
    ensures
        ({
            let b = line + bytes::crlf() + rest;
            bytes::position(b, bytes::blank_line()) == (if rest.len() >= 2 && rest[0] == 13
                && rest[1] == 10 {
                Some(line.len() as int)
            } else {
                match bytes::position(rest, bytes::blank_line()) {
                    Some(k) => Some(k + line.len() + 2),
                    None => None,
                }
            })
        }),
{
    let pat = bytes::blank_line();
    let b = line + bytes::crlf() + rest;
    let n = line.len() as int;
    assert(b[n] == 13 && b[n + 1] == 10);
    assert forall|j: int| 0 <= j < n implies !bytes::stands_at(b, pat, j) by {
        if bytes::stands_at(b, pat, j) {
            let w = b.subrange(j, j + 4);
            assert(w[0] == b[j] && w[1] == b[j + 1]);
            assert(pat[0] == 13 && pat[1] == 10);
            if j + 1 < n {
                assert(line[j] == b[j] && line[j + 1] == b[j + 1]);
            } else {
                assert(b[j + 1] == 13);
            }
        }
    }
    let here = rest.len() >= 2 && rest[0] == 13 && rest[1] == 10;
    if here {
        assert(b[n + 2] == rest[0] && b[n + 3] == rest[1]);
        assert(b.subrange(n, n + 4) =~= pat);
        bytes::lemma_position_is(b, pat, n);
    } else {
        assert(!bytes::stands_at(b, pat, n)) by {
            if bytes::stands_at(b, pat, n) {
                let w = b.subrange(n, n + 4);
                assert(w[2] == b[n + 2] && w[3] == b[n + 3]);
                assert(b[n + 2] == rest[0] && b[n + 3] == rest[1]);
            }
        }
        assert(!bytes::stands_at(b, pat, n + 1)) by {
            if bytes::stands_at(b, pat, n + 1) {
                let w = b.subrange(n + 1, n + 5);
                assert(w[0] == b[n + 1]);
            }
        }
        assert forall|j: int| j >= n + 2 implies bytes::stands_at(b, pat, j) == bytes::stands_at(
            rest,
            pat,
            j - n - 2,
        ) by {
            if j + 4 <= b.len() {
                assert(b.subrange(j, j + 4) =~= rest.subrange(j - n - 2, j - n - 2 + 4));
            }
        }
        bytes::lemma_position(rest, pat);
        match bytes::position(rest, pat) {
            Some(k) => {
                assert forall|j: int| 0 <= j < k + n + 2 implies !bytes::stands_at(b, pat, j) by {
                    if j >= n + 2 {
                        assert(!bytes::stands_at(rest, pat, j - n - 2));
                    }
                }
                assert(bytes::stands_at(b, pat, k + n + 2));
                bytes::lemma_position_is(b, pat, k + n + 2);
            },
            None => {
                assert forall|j: int| !bytes::stands_at(b, pat, j) by {
                    if j >= n + 2 {
                        assert(!bytes::stands_at(rest, pat, j - n - 2));
                    }
                }
                bytes::lemma_position(b, pat);
            },
        }
    }
}

proof fn lemma_encode_sep()
    ensures
        encode_utf8(seq!['\r', '\n']) == bytes::crlf(),
{
    let sep = seq!['\r', '\n'];
    reveal_with_fuel(encode_utf8, 3);
    lemma_scalar_bytes('\r');
    lemma_scalar_bytes('\n');
    assert(sep.drop_first().drop_first() =~= Seq::<char>::empty());
    assert(encode_utf8(sep) =~= bytes::crlf());
}

pub proof fn lemma_lines_end(ls: Seq<Seq<char>>, body: Seq<u8>)
    requires
        ls.len() >= 2,
        forall|i: int| 0 <= i < ls.len() ==> text::one_line(#[trigger] ls[i]),
        forall|i: int| 0 <= i < ls.len() - 1 ==> (#[trigger] ls[i]).len() > 0,
        ls.last().len() == 0,
    ensures
        http::headers_end(encode_utf8(http::unlines(ls)) + body) == Some(
            encode_utf8(http::unlines(ls)).len() as int,
        ),
    decreases ls.len(),
{
    let t = ls.drop_first();
    let ut = encode_utf8(http::unlines(t));
    lemma_unlines_cons(ls);
    let sep = seq!['\r', '\n'];
    lemma_encode_concat(ls[0] + sep, http::unlines(t));
    lemma_encode_concat(ls[0], sep);
    lemma_encode_sep();
    let line = encode_utf8(ls[0]);
    assert(text::one_line(ls[0]));
    lemma_one_line_bytes(ls[0]);
    let all = encode_utf8(http::unlines(ls)) + body;
    let rest = ut + body;
    assert(all =~= line + bytes::crlf() + rest);
    lemma_blank_line_step(line, rest);
    lemma_unlines_cons(t);
    let tt = t.drop_first();
    lemma_encode_concat(t[0] + sep, http::unlines(tt));
    lemma_encode_concat(t[0], sep);
    let line2 = encode_utf8(t[0]);
    let utt = encode_utf8(http::unlines(tt));
    assert(ut == line2 + bytes::crlf() + utt);
    if ls.len() == 2 {
        assert(t[0].len() == 0);
        assert(line2 =~= Seq::<u8>::empty());
        assert(http::unlines(tt) =~= Seq::<char>::empty());
        assert(utt =~= Seq::<u8>::empty());
        assert(ut =~= bytes::crlf());
        assert(rest[0] == 13 && rest[1] == 10);
    } else {
        assert forall|i: int| 0 <= i < t.len() implies text::one_line(#[trigger] t[i]) && (i
            < t.len() - 1 ==> t[i].len() > 0) by {
            assert(t[i] == ls[i + 1]);
        }
        lemma_lines_end(t, body);
        assert(t[0].len() > 0);
        lemma_first_byte(t[0]);
        lemma_one_line_bytes(t[0]);
        assert(rest[0] == line2[0]);
        if rest[0] == 13 {
            if line2.len() >= 2 {
                assert(rest[1] == line2[1]);
            } else {
                assert(rest[1] == 13);
            }
        }
    }
}

/// The head of a request that is rebuilt from a clean head ends exactly where its body
/// begins, whatever the body holds.
pub proof fn law_rebuilt_head_ends_at_body(h: ReqHeadView, body: Seq<u8>)
    requires
        clean(h),
    ensures
        ({
            let head = encode_utf8(http::request_text(h, body.len()));
            http::headers_end(head + body) == Some(head.len() as int)
        }),
{
    lemma_request_lines(h, body.len());
    lemma_lines_end(http::request_lines(h, body.len()), body);
}

}
