//! How a message that is written line by line reads back: what its head is, where it ends
//! and which headers it has.

use crate::http;
use crate::http::ReqHeadView;
use crate::http_laws;
use crate::text;
use vstd::prelude::*;
use vstd::string::*;
use vstd::utf8::*;

verus! {

/// A header as it is written: its name, a colon and a blank, and its value.
pub open spec fn written(h: (Seq<char>, Seq<char>)) -> Seq<char> {
    h.0 + seq![':', ' '] + h.1
}

/// A head as it is written: the first line, the headers and the blank line, each ended by
/// CR LF.
pub open spec fn head_text(first: Seq<char>, hs: Seq<(Seq<char>, Seq<char>)>) -> Seq<char> {
    first + seq!['\r', '\n'] + header_text(hs) + seq!['\r', '\n']
}

/// Headers as they are written, each ended by CR LF.
pub open spec fn header_text(hs: Seq<(Seq<char>, Seq<char>)>) -> Seq<char>
    decreases hs.len(),
{
    if hs.len() == 0 {
        seq![]
    } else {
        written(hs[0]) + seq!['\r', '\n'] + header_text(hs.drop_first())
    }
}

/// A header that can be written: a name without a colon or white space around it, and no
/// line end anywhere.
pub open spec fn writable(h: (Seq<char>, Seq<char>)) -> bool {
    &&& h.0.len() > 0
    &&& text::trimmed(h.0)
    &&& text::one_line(h.0)
    &&& text::one_line(h.1)
    &&& forall|i: int| 0 <= i < h.0.len() ==> #[trigger] h.0[i] != ':'
}

/// A header as it reads back: its name in small letters, its value without the white
/// space around it.
pub open spec fn read_back(h: (Seq<char>, Seq<char>)) -> (Seq<char>, Seq<char>) {
    (text::lower(h.0), text::trim(h.1))
}

proof fn lemma_written(h: (Seq<char>, Seq<char>))
    requires
        writable(h),
    ensures
        http::header_of(written(h)) == Some(read_back(h)),
        text::one_line(written(h)),
        written(h).len() > 0,
{
    let line = written(h);
    let k = h.0.len() as int;
    assert(line[k] == ':');
    assert forall|j: int| 0 <= j < k implies line[j] != ':' by {
        assert(line[j] == h.0[j]);
    }
    text::lemma_index_of_is(line, ':', k);
    assert(line.take(k) =~= h.0);
    assert(line.skip(k + 1) =~= seq![' '] + h.1);
    text::lemma_trim_leading_space(h.1);
    text::lemma_trim_trimmed(h.0);
    assert forall|i: int| 0 <= i && i + 1 < line.len() implies !(#[trigger] line[i] == '\r' && line[i
        + 1] == '\n') by {
        if i + 1 < k {
            assert(line[i] == h.0[i] && line[i + 1] == h.0[i + 1]);
        } else if i >= k + 2 {
            assert(line[i] == h.1[i - k - 2] && line[i + 1] == h.1[i + 1 - k - 2]);
        }
    }
}

/// The lines of headers, then the blank line.
spec fn header_lines(hs: Seq<(Seq<char>, Seq<char>)>) -> Seq<Seq<char>>
    decreases hs.len(),
{
    if hs.len() == 0 {
        seq![Seq::<char>::empty()]
    } else {
        seq![written(hs[0])] + header_lines(hs.drop_first())
    }
}

proof fn lemma_header_lines(hs: Seq<(Seq<char>, Seq<char>)>)
    requires
        forall|i: int| 0 <= i < hs.len() ==> writable(#[trigger] hs[i]),
    ensures
        ({
            let ls = header_lines(hs);
            &&& ls.len() == hs.len() + 1
            &&& ls.last() == Seq::<char>::empty()
            &&& http::unlines(ls) == header_text(hs) + seq!['\r', '\n']
            &&& http::headers_of(ls.push(Seq::<char>::empty())) == hs.map_values(
                |h: (Seq<char>, Seq<char>)| read_back(h),
            )
            &&& forall|i: int| 0 <= i < ls.len() ==> text::one_line(#[trigger] ls[i])
            &&& forall|i: int| 0 <= i < ls.len() - 1 ==> (#[trigger] ls[i]).len() > 0
        }),
    decreases hs.len(),
{
    let f = |h: (Seq<char>, Seq<char>)| read_back(h);
    let ls = header_lines(hs);
    let all = ls.push(Seq::<char>::empty());
    http_laws::lemma_unlines_cons(ls);
    if hs.len() == 0 {
        assert(ls.drop_first() =~= Seq::<Seq<char>>::empty());
        assert(http::unlines(ls) =~= header_text(hs) + seq!['\r', '\n']);
        assert(all[0].len() == 0);
        assert(hs.map_values(f) =~= Seq::<(Seq<char>, Seq<char>)>::empty());
    } else {
        let t = hs.drop_first();
        assert forall|i: int| 0 <= i < t.len() implies writable(#[trigger] t[i]) by {
            assert(t[i] == hs[i + 1]);
        }
        lemma_header_lines(t);
        assert(writable(hs[0]));
        lemma_written(hs[0]);
        let rest = header_lines(t);
        assert(ls.drop_first() =~= rest);
        assert(http::unlines(ls) =~= header_text(hs) + seq!['\r', '\n']);
        assert(all.drop_first() =~= rest.push(Seq::<char>::empty()));
        assert(all[0] == written(hs[0]));
        assert(hs.map_values(f) =~= seq![read_back(hs[0])] + t.map_values(f));
        assert(ls.last() == rest.last());
        assert forall|i: int| 0 <= i < ls.len() implies text::one_line(#[trigger] ls[i]) && (i
            < ls.len() - 1 ==> ls[i].len() > 0) by {
            if i > 0 {
                assert(ls[i] == rest[i - 1]);
            }
        }
    }
}

/// A message that is written line by line ends its head where its body begins, and its
/// head reads back: the words of its first line, and its headers in order.
pub proof fn law_written_message_reads_back(
    first: Seq<char>,
    hs: Seq<(Seq<char>, Seq<char>)>,
    body: Seq<u8>,
)
    requires
        first.len() > 0,
        text::one_line(first),
        text::nth_word(first, 0) is Some,
        text::nth_word(first, 1) is Some,
        forall|i: int| 0 <= i < hs.len() ==> writable(#[trigger] hs[i]),
    ensures
        ({
            let head = encode_utf8(head_text(first, hs));
            &&& http::headers_end(head + body) == Some(head.len() as int)
            &&& http::parsed_head(head) == Some(
                ReqHeadView {
                    method: text::nth_word(first, 0)->0,
                    target: text::nth_word(first, 1)->0,
                    headers: hs.map_values(|h: (Seq<char>, Seq<char>)| read_back(h)),
                },
            )
        }),
{
    let s = head_text(first, hs);
    let rest = header_lines(hs);
    let ls = seq![first] + rest;
    lemma_header_lines(hs);
    http_laws::lemma_unlines_cons(ls);
    assert(ls.drop_first() =~= rest);
    assert(http::unlines(ls) =~= s);
    assert forall|i: int| 0 <= i < ls.len() implies text::one_line(#[trigger] ls[i]) && (i
        < ls.len() - 1 ==> ls[i].len() > 0) by {
        if i > 0 {
            assert(ls[i] == rest[i - 1]);
        }
    }
    assert(ls.last() == rest.last());
    http_laws::lemma_lines_end(ls, body);
    http_laws::lemma_lines_of_unlines(ls);
    encode_utf8_valid_utf8(s);
    encode_utf8_decode_utf8(s);
    let all = ls.push(Seq::<char>::empty());
    assert(all[0] == first);
    assert(all.drop_first() =~= rest.push(Seq::<char>::empty()));
}

/// The value that a header has is that of the first one of its name.
pub proof fn law_first_header_counts(
    hs: Seq<(Seq<char>, Seq<char>)>,
    name: Seq<char>,
    k: int,
)
    requires
        0 <= k <= hs.len(),
        forall|i: int| 0 <= i < k ==> (#[trigger] hs[i]).0 != name,
        k < hs.len() ==> hs[k].0 == name,
    ensures
        k < hs.len() ==> http::header_value(hs, name) == Some(hs[k].1),
        k == hs.len() ==> http::header_value(hs, name) is None,
{
    http::lemma_header_value_skip(hs, name, k);
    if k < hs.len() {
        assert(hs.skip(k)[0] == hs[k]);
    }
}

/// A line with something in it besides white space has a first word.
pub proof fn lemma_has_word(s: Seq<char>, i: int)
    requires
        0 <= i < s.len(),
        !text::white(s[i]),
    ensures
        text::nth_word(s, 0) is Some,
        text::after_word(s).len() < s.len(),
{
    let a = text::lemma_trim_start(s);
    assert(a <= i);
    text::lemma_word_len(s.skip(a));
    assert(s.skip(a)[0] == s[a]);
}

/// A line whose first blank follows a word, with more behind it, has a second word.
pub proof fn lemma_has_second_word(s: Seq<char>, i: int, n: int, j: int)
    requires
        0 <= i < n < j < s.len(),
        !text::white(s[i]),
        text::white(s[n]),
        !text::white(s[j]),
    ensures
        text::nth_word(s, 0) is Some,
        text::nth_word(s, 1) is Some,
{
    lemma_has_word(s, i);
    let a = text::lemma_trim_start(s);
    let t = s.skip(a);
    let w = text::word_len(t);
    text::lemma_word_len(t);
    assert(a <= i);
    assert(a + w <= n) by {
        if a + w > n {
            assert(t[n - a] == s[n]);
        }
    }
    let rest = text::after_word(s);
    assert(rest =~= s.skip(a + w));
    assert(rest[j - a - w] == s[j]);
    lemma_has_word(rest, j - a - w);
    reveal_with_fuel(text::nth_word, 2);
}

}
