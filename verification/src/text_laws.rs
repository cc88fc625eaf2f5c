//! What holds of text, numbers, bytes, ids and frames, stated on the characters and bytes
//! themselves.

use crate::bytes;
use crate::config::Role;
use crate::ids;
use crate::ids::{parse_id, EndpointId, IdError};
use crate::link;
use crate::number;
use crate::string_map;
use crate::text;
use crate::topic::{topic_from_secret, TopicId};
use crate::util;
use crate::util::{apply_bind, gather, id_error_message, now_millis, parse_ids};
use crate::wire;
use crate::wire::{encode, membership_token, read_framed, too_large_message, FrameStep};
use vstd::prelude::*;
use vstd::string::*;
use vstd::utf8::encode_utf8;

verus! {

// ---- text ----

/// Blanks, tabs and line ends are white space, and nothing that is printed in ASCII is.
pub proof fn law_white_space(c: char)
    ensures
        c == ' ' || c == '\t' || c == '\r' || c == '\n' ==> text::white(c),
        '!' <= c <= '~' ==> !text::white(c),
        c == '\u{a0}' || c == '\u{2003}' || c == '\u{3000}' ==> text::white(c),
        c >= '\u{3001}' ==> !text::white(c),
        text::white(c) <==> {
            let n = c as int;
            ||| 9 <= n <= 13
            ||| n == 0x20
            ||| n == 0x85
            ||| n == 0xa0
            ||| n == 0x1680
            ||| 0x2000 <= n <= 0x200a
            ||| n == 0x2028
            ||| n == 0x2029
            ||| n == 0x202f
            ||| n == 0x205f
            ||| n == 0x3000
        },
{
}

/// Case folding makes each ASCII capital the small letter of its place in the alphabet
/// and leaves every other character alone.
pub proof fn law_lower_case(s: Seq<char>, i: int)
    requires
        0 <= i < s.len(),
    ensures
        text::lower(s).len() == s.len(),
        'A' <= s[i] <= 'Z' ==> text::lower(s)[i] as int - 'a' as int == s[i] as int - 'A' as int,
        !('A' <= s[i] <= 'Z') ==> text::lower(s)[i] == s[i],
{
}

/// A run of one character is taken off the end of a text, and no more than the run.
pub proof fn law_run_is_taken_off_the_end(s: Seq<char>, c: char) -> (k: int)
    ensures
        0 <= k <= s.len(),
        text::trim_end_char(s, c) == s.take(k),
        forall|i: int| k <= i < s.len() ==> s[i] == c,
        k > 0 ==> s[k - 1] != c,
    decreases s.len(),
{
    if s.len() > 0 && s.last() == c {
        let t = s.drop_last();
        let k = law_run_is_taken_off_the_end(t, c);
        assert(t.take(k) =~= s.take(k));
        assert forall|i: int| k <= i < s.len() implies s[i] == c by {
            if i < t.len() {
                assert(t[i] == s[i]);
            }
        }
        k
    } else {
        assert(s.take(s.len() as int) =~= s);
        s.len() as int
    }
}

/// A text is parted at the first or the last place of a character, and nothing but that
/// character is lost.
pub proof fn law_parts_join_again(s: Seq<char>, c: char)
    ensures
        text::split_once(s, c) is Some <==> s.contains(c),
        text::rsplit_once(s, c) is Some <==> s.contains(c),
        text::split_once(s, c) matches Some(p) ==> s == p.0 + seq![c] + p.1 && !p.0.contains(c),
        text::rsplit_once(s, c) matches Some(p) ==> s == p.0 + seq![c] + p.1 && !p.1.contains(c),
        !s.contains(c) ==> text::before(s, c) == s,
        text::split_once(s, c) matches Some(p) ==> text::before(s, c) == p.0,
{
    text::lemma_index_of(s, c);
    text::lemma_last_index_of(s, c);
    let k = text::index_of(s, c);
    let l = text::last_index_of(s, c);
    if s.contains(c) {
        let i = choose|i: int| 0 <= i < s.len() && s[i] == c;
        assert(k <= i && i <= l);
    }
    if k < s.len() {
        assert(s.contains(s[k]));
        assert(s =~= s.take(k) + seq![c] + s.skip(k + 1));
        assert(!s.take(k).contains(c)) by {
            if s.take(k).contains(c) {
                let i = choose|i: int| 0 <= i < k && s.take(k)[i] == c;
                assert(s[i] == c);
            }
        }
    } else {
        assert(s.take(k) =~= s);
    }
    if l >= 0 {
        assert(s.contains(s[l]));
        assert(s =~= s.take(l) + seq![c] + s.skip(l + 1));
        let tail = s.skip(l + 1);
        assert(!tail.contains(c)) by {
            if tail.contains(c) {
                let i = choose|i: int| 0 <= i < tail.len() && tail[i] == c;
                assert(s[l + 1 + i] == c);
            }
        }
    }
}

/// Words are what white space parts: of two words with a blank between them, and white
/// space or nothing around and behind, the first is the first and the second the second;
/// and a text of white space holds none.
pub proof fn law_words_are_parted_by_white_space(
    lead: Seq<char>,
    a: Seq<char>,
    b: Seq<char>,
    rest: Seq<char>,
)
    requires
        forall|i: int| 0 <= i < lead.len() ==> text::white(#[trigger] lead[i]),
        a.len() > 0,
        b.len() > 0,
        forall|i: int| 0 <= i < a.len() ==> !text::white(#[trigger] a[i]),
        forall|i: int| 0 <= i < b.len() ==> !text::white(#[trigger] b[i]),
        rest.len() > 0 ==> text::white(rest[0]),
    ensures
        text::nth_word(lead, 0) is None,
        text::nth_word(lead + a + seq![' '] + b + rest, 0) == Some(a),
        text::nth_word(lead + a + seq![' '] + b + rest, 1) == Some(b),
{
    lemma_lead(lead, Seq::<char>::empty());
    assert(lead + Seq::<char>::empty() =~= lead);
    let inner = a + (seq![' '] + b + rest);
    let s = lead + a + seq![' '] + b + rest;
    assert(s =~= lead + inner);
    lemma_lead(lead, inner);
    text::lemma_first_word(a, seq![' '] + b + rest);
    assert(text::trim_start(inner) == inner) by {
        assert(inner[0] == a[0]);
    }
    let after = seq![' '] + b + rest;
    let tail = b + rest;
    assert(after =~= seq![' '] + tail);
    lemma_lead(seq![' '], tail);
    text::lemma_first_word(b, rest);
    assert(text::trim_start(tail) == tail) by {
        assert(tail[0] == b[0]);
    }
    assert(text::nth_word(after, 0) == Some(b));
    assert(text::after_word(s) == after);
    reveal_with_fuel(text::nth_word, 2);
}

proof fn lemma_lead(lead: Seq<char>, s: Seq<char>)
    requires
        forall|i: int| 0 <= i < lead.len() ==> text::white(#[trigger] lead[i]),
    ensures
        text::trim_start(lead + s) == text::trim_start(s),
    decreases lead.len(),
{
    if lead.len() == 0 {
        assert(lead + s =~= s);
    } else {
        let t = lead.drop_first();
        assert forall|i: int| 0 <= i < t.len() implies text::white(#[trigger] t[i]) by {
            assert(t[i] == lead[i + 1]);
        }
        assert(text::white(lead[0]));
        assert((lead + s)[0] == lead[0]);
        assert((lead + s).drop_first() =~= t + s);
        lemma_lead(t, s);
    }
}

/// Texts stand in the order of the first character in which they differ, a text before
/// its continuations.
pub proof fn law_texts_order_by_first_difference(a: Seq<char>, b: Seq<char>, k: int)
    requires
        0 <= k <= a.len(),
        k < b.len(),
        forall|i: int| 0 <= i < k ==> a[i] == b[i],
        k < a.len() ==> a[k] < b[k],
    ensures
        string_map::text_before(a, b),
        !string_map::text_before(b, a),
    decreases k,
{
    string_map::lemma_text_before_total(a, b);
    if k > 0 {
        let x = a.drop_first();
        let y = b.drop_first();
        assert forall|i: int| 0 <= i < k - 1 implies x[i] == y[i] by {
            assert(a[i + 1] == b[i + 1]);
        }
        law_texts_order_by_first_difference(x, y, k - 1);
    }
}

// ---- numbers ----

/// Decimal notation: a number below ten is its digit, and any other is the notation of
/// its tens followed by the digit of what is left over.
pub proof fn law_decimal_notation(n: nat)
    ensures
        n < 10 ==> number::digits(n).len() == 1 && number::digits(n)[0] as int == 0x30 + n,
        n >= 10 ==> number::digits(n).len() == number::digits(n / 10).len() + 1,
        n >= 10 ==> number::digits(n).drop_last() == number::digits(n / 10),
        number::digits(n).last() as int == 0x30 + n % 10,
        n > 0 ==> number::digits(n)[0] != '0',
    decreases n,
{
    if n >= 10 {
        law_decimal_notation(n / 10);
        number::lemma_digits(n / 10);
        assert(number::digits(n).drop_last() =~= number::digits(n / 10));
        assert(number::digits(n)[0] == number::digits(n / 10)[0]);
    }
}

/// Two numbers that are written alike are equal.
pub proof fn law_decimal_is_unambiguous(a: nat, b: nat)
    ensures
        number::digits(a) == number::digits(b) ==> a == b,
{
    number::lemma_value_digits(a);
    number::lemma_value_digits(b);
}

/// A number is read digit by digit: one more digit makes ten times as much and the digit.
/// Anything but digits after an optional plus sign, and anything above the limit, is no
/// number.
pub proof fn law_numbers_are_read_digit_by_digit(s: Seq<char>, c: char, n: nat, max: nat)
    requires
        s.len() > 0,
    ensures
        number::parse(s, max) == Some(n) && '0' <= c <= '9' && 10 * n + (c as int - 0x30) <= max
            ==> number::parse(s.push(c), max) == Some((10 * n + (c as int - 0x30)) as nat),
        !('0' <= c <= '9') ==> number::parse(s.push(c), max) is None,
        number::parse(s, max) matches Some(v) ==> v <= max,
        '0' <= c <= '9' && (c as int - 0x30) <= max ==> number::parse(seq![c], max) == Some(
            (c as int - 0x30) as nat,
        ),
        number::parse(seq![], max) is None,
        number::parse(seq!['+'], max) is None,
        s[0] != '+' ==> number::parse(seq!['+'] + s, max) == number::parse(s, max),
{
    let d = number::after_plus(s);
    let e = number::after_plus(s.push(c));
    assert(e =~= d.push(c)) by {
        assert(s.push(c)[0] == s[0]);
        if s[0] == '+' {
            assert(s.push(c).skip(1) =~= s.skip(1).push(c));
        }
    }
    assert(e.drop_last() =~= d);
    if number::all_digits(d) && '0' <= c <= '9' {
        assert forall|i: int| 0 <= i < e.len() implies number::is_digit(#[trigger] e[i]) by {
            if i < d.len() {
                assert(e[i] == d[i]);
            }
        }
    }
    if !('0' <= c <= '9') {
        assert(e[e.len() - 1] == c);
        assert(!number::is_digit(e[e.len() - 1]));
    }
    let one = seq![c];
    reveal_with_fuel(number::value, 2);
    assert(one.drop_last() =~= Seq::<char>::empty());
    if '0' <= c <= '9' {
        assert(number::after_plus(one) == one);
        assert(number::all_digits(one));
    }
    assert(number::after_plus(seq!['+']) =~= Seq::<char>::empty());
    if s[0] != '+' {
        assert(number::after_plus(seq!['+'] + s) =~= s);
        assert(number::after_plus(s) == s);
    }
}

/// A number above the limit is no number.
pub proof fn law_numbers_above_the_limit_are_refused(n: nat, max: nat)
    requires
        n > max,
    ensures
        number::parse(number::digits(n), max) is None,
{
    number::lemma_digits(n);
    number::lemma_value_digits(n);
    assert(number::is_digit(number::digits(n)[0]));
}

/// The value of a small hexadecimal digit.
pub open spec fn nibble(c: char) -> int {
    if '0' <= c <= '9' {
        c as int - 0x30
    } else {
        c as int - 0x61 + 10
    }
}

/// Each byte is written as two small hexadecimal digits, the high one first.
pub proof fn law_hex_reads_back(b: Seq<u8>, i: int)
    requires
        0 <= i < b.len(),
    ensures
        number::hex(b).len() == 2 * b.len(),
        ({
            let h = number::hex(b)[2 * i];
            let l = number::hex(b)[2 * i + 1];
            &&& ('0' <= h <= '9' || 'a' <= h <= 'f') && ('0' <= l <= '9' || 'a' <= l <= 'f')
            &&& nibble(h) * 16 + nibble(l) == b[i]
        }),
{
    assert((2 * i) / 2 == i && (2 * i) % 2 == 0);
    assert((2 * i + 1) / 2 == i && (2 * i + 1) % 2 == 1);
}

// ---- bytes ----

/// A pattern is found at the first place where it stands, byte by byte, and is not found
/// only where it stands nowhere.
pub proof fn law_patterns_are_found_first(b: Seq<u8>, pat: Seq<u8>, j: int)
    requires
        pat.len() > 0,
        0 <= j,
        j + pat.len() <= b.len(),
    ensures
        b.subrange(j, j + pat.len()) == pat ==> bytes::position(b, pat) is Some && bytes::position(
            b,
            pat,
        )->0 <= j,
        bytes::position(b, pat) matches Some(k) ==> 0 <= k && k + pat.len() <= b.len()
            && b.subrange(k, k + pat.len()) == pat,
{
    bytes::lemma_position(b, pat);
    assert(bytes::stands_at(b, pat, j) <==> b.subrange(j, j + pat.len()) == pat);
}

/// Lines end where CR LF, or the line feed, first stands.
pub proof fn law_first_lines(b: Seq<u8>)
    ensures
        bytes::crlf() == seq![13u8, 10u8],
        bytes::blank_line() == bytes::crlf() + bytes::crlf(),
        bytes::newline() == seq![10u8],
        !bytes::raw_line(b).contains(10u8),
        bytes::raw_line(b).len() < b.len() ==> b[bytes::raw_line(b).len() as int] == 10,
        bytes::raw_line(b) == b.take(bytes::raw_line(b).len() as int),
        bytes::first_line(b) == b.take(bytes::first_line(b).len() as int),
        forall|i: int|
            0 <= i && i + 1 < bytes::first_line(b).len() ==> !(#[trigger] b[i] == 13 && b[i + 1]
                == 10),
        bytes::first_line(b).len() < b.len() ==> {
            let n = bytes::first_line(b).len() as int;
            n + 1 < b.len() && b[n] == 13 && b[n + 1] == 10
        },
{
    assert(bytes::crlf() + bytes::crlf() =~= bytes::blank_line());
    bytes::lemma_position(b, bytes::newline());
    bytes::lemma_position(b, bytes::crlf());
    let r = bytes::raw_line(b);
    let f = bytes::first_line(b);
    assert(b.take(b.len() as int) =~= b);
    if r.contains(10u8) {
        let i = choose|i: int| 0 <= i < r.len() && r[i] == 10;
        assert(b[i] == 10);
        assert(b.subrange(i, i + 1) =~= bytes::newline());
        assert(bytes::stands_at(b, bytes::newline(), i));
    }
    if let Some(k) = bytes::position(b, bytes::newline()) {
        assert(b.subrange(k, k + 1)[0] == b[k]);
    }
    assert forall|i: int| 0 <= i && i + 1 < f.len() implies !(#[trigger] b[i] == 13 && b[i + 1]
        == 10) by {
        if b[i] == 13 && b[i + 1] == 10 {
            assert(b.subrange(i, i + 2) =~= bytes::crlf());
            assert(bytes::stands_at(b, bytes::crlf(), i));
        }
    }
    if let Some(k) = bytes::position(b, bytes::crlf()) {
        assert(b.subrange(k, k + 2)[0] == b[k]);
        assert(b.subrange(k, k + 2)[1] == b[k + 1]);
    }
}

// ---- ids ----

/// An id is its 32 bytes: those it was made from are those it gives, and two ids of the
/// same bytes are equal.
pub proof fn law_an_id_is_its_bytes(
    b: &[u8],
    id: EndpointId,
    out: Vec<u8>,
    other: EndpointId,
)
    requires
        b@.len() == 32,
        call_ensures(EndpointId::from_bytes, (b,), id),
        call_ensures(EndpointId::to_bytes, (&id,), out),
    ensures
        out@ == b@,
        id.bytes() == b@,
        other.bytes() == id.bytes() ==> other == id,
{
    ids::law_ids_order_like_bytes(id, other);
    ids::law_ids_order_like_bytes(other, id);
    ids::law_ids_are_totally_ordered(id, other);
    if other.bytes() == id.bytes() && other != id {
        lemma_not_before_itself(id.bytes());
    }
}

proof fn lemma_not_before_itself(b: Seq<u8>)
    ensures
        !ids::bytes_before(b, b),
    decreases b.len(),
{
    if b.len() > 0 {
        lemma_not_before_itself(b.drop_first());
    }
}

proof fn lemma_bytes_before(a: Seq<u8>, b: Seq<u8>, k: int)
    requires
        0 <= k < a.len(),
        k < b.len(),
        forall|i: int| 0 <= i < k ==> a[i] == b[i],
        a[k] < b[k],
    ensures
        ids::bytes_before(a, b),
    decreases k,
{
    if k > 0 {
        let x = a.drop_first();
        let y = b.drop_first();
        assert forall|i: int| 0 <= i < k - 1 implies x[i] == y[i] by {
            assert(a[i + 1] == b[i + 1]);
        }
        lemma_bytes_before(x, y, k - 1);
    }
}

/// Ids stand in the order of the first byte in which they differ.
pub proof fn law_ids_order_by_first_difference(a: EndpointId, b: EndpointId, k: int, r: bool)
    requires
        call_ensures(EndpointId::is_before, (&a, &b), r),
        0 <= k < a.bytes().len(),
        k < b.bytes().len(),
        forall|i: int| 0 <= i < k ==> a.bytes()[i] == b.bytes()[i],
        a.bytes()[k] < b.bytes()[k],
    ensures
        r,
        a.before(b),
        !b.before(a),
{
    lemma_bytes_before(a.bytes(), b.bytes(), k);
    ids::law_ids_order_like_bytes(a, b);
    ids::law_ids_are_totally_ordered(a, b);
}

/// An id is read from a text exactly where iroh reads a key there, and it is that key; a
/// text that is none is reported as it was given.
pub proof fn law_ids_are_read_as_keys(s: &str, r: Result<EndpointId, IdError>)
    requires
        call_ensures(parse_id, (s,), r),
    ensures
        r is Ok <==> ids::endpoint_key(s@) is Ok,
        r is Ok ==> ids::endpoint_key(s@)->Ok_0 == r->Ok_0.bytes(),
        r is Err ==> r->Err_0.given@ == s@ && ids::endpoint_key(s@)->Err_0 == r->Err_0.detail@,
{
}

// ---- lists of ids ----

/// Blank texts are left out of a list of ids, and every other one is taken without the
/// white space around it, in order.
pub proof fn law_blank_texts_are_left_out(raw: Seq<String>, s: String)
    ensures
        util::wanted(seq![]) == Seq::<Seq<char>>::empty(),
        (forall|i: int| 0 <= i < s@.len() ==> text::white(#[trigger] s@[i])) ==> util::wanted(
            raw.push(s),
        ) == util::wanted(raw),
        (exists|i: int| 0 <= i < s@.len() && !text::white(#[trigger] s@[i])) ==> util::wanted(
            raw.push(s),
        ) == util::wanted(raw).push(text::trim(s@)),
{
    assert(raw.push(s).drop_last() =~= raw);
    let r = text::lemma_trim(s@);
    if exists|i: int| 0 <= i < s@.len() && !text::white(#[trigger] s@[i]) {
        let i = choose|i: int| 0 <= i < s@.len() && !text::white(#[trigger] s@[i]);
        assert(r.0 <= i < r.1);
    }
}

/// A list of ids is read as a whole: where every text is an id they are all given, in
/// order; otherwise the first text that is none is reported.
pub proof fn law_ids_are_read_in_order(w: Seq<Seq<char>>)
    ensures
        util::all_ids(w) matches Ok(v) ==> v.len() == w.len() && forall|i: int|
            0 <= i < w.len() ==> ids::id_in(#[trigger] w[i]) == Some(v[i]),
        util::all_ids(w) matches Err(s) ==> exists|k: int|
            {
                &&& 0 <= k < w.len()
                &&& #[trigger] w[k] == s
                &&& ids::id_in(s) is None
                &&& forall|i: int| 0 <= i < k ==> ids::id_in(#[trigger] w[i]) is Some
            },
    decreases w.len(),
{
    if w.len() > 0 {
        let t = w.drop_last();
        law_ids_are_read_in_order(t);
        match util::all_ids(t) {
            Ok(u) => {
                assert forall|i: int| 0 <= i < t.len() implies ids::id_in(#[trigger] w[i]) == Some(
                    u[i],
                ) by {
                    assert(t[i] == w[i]);
                }
                assert(w[w.len() - 1] == w.last());
            },
            Err(s) => {
                let k = choose|k: int|
                    {
                        &&& 0 <= k < t.len()
                        &&& #[trigger] t[k] == s
                        &&& ids::id_in(s) is None
                        &&& forall|i: int| 0 <= i < k ==> ids::id_in(#[trigger] t[i]) is Some
                    };
                assert(w[k] == s);
                assert forall|i: int| 0 <= i < k implies ids::id_in(#[trigger] w[i]) is Some by {
                    assert(t[i] == w[i]);
                }
            },
        }
    }
}

/// Results are gathered where all are good, in order; the first failure is given
/// otherwise.
pub proof fn law_first_failure_counts(
    parsed: Vec<Result<EndpointId, IdError>>,
    r: Result<Vec<EndpointId>, IdError>,
)
    requires
        call_ensures(gather, (parsed,), r),
    ensures
        r is Ok <==> forall|i: int| 0 <= i < parsed@.len() ==> (#[trigger] parsed@[i]) is Ok,
        r is Ok ==> r->Ok_0@.len() == parsed@.len() && forall|i: int|
            0 <= i < parsed@.len() ==> (#[trigger] parsed@[i])->Ok_0 == r->Ok_0@[i],
        r is Err ==> exists|k: int|
            {
                &&& 0 <= k < parsed@.len()
                &&& #[trigger] parsed@[k] == Err::<EndpointId, IdError>(r->Err_0)
                &&& forall|i: int| 0 <= i < k ==> (#[trigger] parsed@[i]) is Ok
            },
{
    lemma_gathered(parsed@);
}

proof fn lemma_gathered(v: Seq<Result<EndpointId, IdError>>)
    ensures
        util::gathered(v) matches Ok(w) ==> w.len() == v.len() && forall|i: int|
            0 <= i < v.len() ==> #[trigger] v[i] == Ok::<EndpointId, IdError>(w[i]),
        util::gathered(v) matches Err(e) ==> exists|k: int|
            {
                &&& 0 <= k < v.len()
                &&& #[trigger] v[k] == Err::<EndpointId, IdError>(e)
                &&& forall|i: int| 0 <= i < k ==> (#[trigger] v[i]) is Ok
            },
    decreases v.len(),
{
    if v.len() > 0 {
        let t = v.drop_last();
        lemma_gathered(t);
        match util::gathered(t) {
            Ok(w) => {
                assert forall|i: int| 0 <= i < t.len() implies #[trigger] v[i] == Ok::<
                    EndpointId,
                    IdError,
                >(w[i]) by {
                    assert(t[i] == v[i]);
                }
                assert(v[v.len() - 1] == v.last());
            },
            Err(e) => {
                let k = choose|k: int|
                    {
                        &&& 0 <= k < t.len()
                        &&& #[trigger] t[k] == Err::<EndpointId, IdError>(e)
                        &&& forall|i: int| 0 <= i < k ==> (#[trigger] t[i]) is Ok
                    };
                assert(v[k] == t[k]);
                assert forall|i: int| 0 <= i < k implies (#[trigger] v[i]) is Ok by {
                    assert(t[i] == v[i]);
                }
            },
        }
    }
}

/// The ids of a configuration: one for each text that is not blank, or the first of these
/// that is no id.
pub proof fn law_configured_ids(raw: Vec<String>, r: Result<Vec<EndpointId>, IdError>)
    requires
        call_ensures(parse_ids, (&raw,), r),
    ensures
        r is Ok ==> r->Ok_0@.len() == util::wanted(raw@).len() && forall|i: int|
            0 <= i < r->Ok_0@.len() ==> ids::id_in(#[trigger] util::wanted(raw@)[i]) == Some(
                r->Ok_0@[i],
            ),
        r is Err ==> util::wanted(raw@).contains(r->Err_0.given@) && ids::endpoint_key(
            r->Err_0.given@,
        ) is Err,
{
    law_ids_are_read_in_order(util::wanted(raw@));
}

// ---- settings ----

/// A bind setting without a port gets an ephemeral one, an IPv6 address in brackets; one
/// with a port stays; a blank or missing one pins nothing.
pub proof fn law_bind_setting_names_a_port(raw: Option<&str>, r: Option<String>)
    requires
        call_ensures(apply_bind, (raw,), r),
    ensures
        r is None <==> raw is None || forall|i: int|
            0 <= i < raw->0@.len() ==> text::white(#[trigger] raw->0@[i]),
        r is Some ==> {
            let t = text::trim(raw->0@);
            &&& !t.contains(':') ==> r->0@ == t + seq![':', '0']
            &&& (exists|i: int, j: int| 0 <= i < j < t.len() && #[trigger] t[i] == ':' && #[trigger] t[j] == ':')
                && t[0] != '[' ==> r->0@ == seq!['['] + t + seq![']', ':', '0']
            &&& t.contains(':') && (t[0] == '[' || forall|i: int, j: int|
                0 <= i < j < t.len() ==> !(#[trigger] t[i] == ':' && #[trigger] t[j] == ':'))
                ==> r->0@ == t
        },
{
    reveal_strlit(":0");
    reveal_strlit("[");
    reveal_strlit("]:0");
    assert(":0"@ =~= seq![':', '0']);
    assert("["@ =~= seq!['[']);
    assert("]:0"@ =~= seq![']', ':', '0']);
    if raw is Some {
        let s = raw->0@;
        let t = text::trim(s);
        let p = text::lemma_trim(s);
        text::lemma_index_of(t, ':');
        text::lemma_last_index_of(t, ':');
        if t.len() > 0 {
            assert(!text::white(s[p.0]));
        } else {
            assert forall|i: int| 0 <= i < s.len() implies text::white(#[trigger] s[i]) by {}
        }
        let a = text::index_of(t, ':');
        let b = text::last_index_of(t, ':');
        if exists|i: int, j: int| 0 <= i < j < t.len() && #[trigger] t[i] == ':' && #[trigger] t[j] == ':' {
            let (i, j) = choose|i: int, j: int|
                0 <= i < j < t.len() && #[trigger] t[i] == ':' && #[trigger] t[j] == ':';
            assert(a <= i && j <= b);
            assert(t.contains(t[i]));
        }
        if util::many_colons(t) {
            assert(t[a] == ':' && t[b] == ':');
        }
    }
}

/// A role is named by its word, whatever the case and the white space around it.
pub proof fn law_roles_are_named(s: &str, r: Option<Role>)
    requires
        call_ensures(Role::parse, (s,), r),
    ensures
        r == Some(Role::Backend) <==> text::lower(text::trim(s@)) == "backend"@,
        r == Some(Role::Frontend) <==> text::lower(text::trim(s@)) == "frontend"@,
{
    reveal_strlit("backend");
    reveal_strlit("frontend");
    assert("backend"@.len() != "frontend"@.len());
}

/// Epochs are milliseconds since 1970, as long as they fit.
pub proof fn law_epochs_are_milliseconds(since_1970: Option<u128>, n: u64)
    requires
        call_ensures(now_millis, (since_1970,), n),
    ensures
        since_1970 is Some && since_1970->0 <= u64::MAX ==> n == since_1970->0,
        since_1970 is None ==> n == 0,
{
}

/// Nodes that share a secret compute the same topic and the same token: the digest of its
/// bytes, as it is and in hexadecimal digits.
pub proof fn law_shared_secret_shares_topic_and_token(
    a: &str,
    b: &str,
    x: TopicId,
    y: TopicId,
    s: String,
    t: String,
)
    requires
        a@ == b@,
        call_ensures(topic_from_secret, (a,), x),
        call_ensures(topic_from_secret, (b,), y),
        call_ensures(membership_token, (a,), s),
        call_ensures(membership_token, (b,), t),
    ensures
        x.bytes@ == y.bytes@,
        s@ == t@,
        x.bytes@ == wire::blake3_digest(encode_utf8(a@)),
        s@ == number::hex(x.bytes@),
{
}

// ---- frames ----

/// A frame announces the length of its body in four bytes, the most significant first,
/// and the body follows as it is.
pub proof fn law_frame_announces_its_length(body: &[u8], out: Vec<u8>)
    requires
        call_ensures(encode, (body,), out),
        body@.len() < 0x1_0000_0000,
    ensures
        out@.len() == 4 + body@.len(),
        out@[0] * 0x100_0000 + out@[1] * 0x1_0000 + out@[2] * 0x100 + out@[3] == body@.len(),
        out@.skip(4) == body@,
{
    let n = body@.len();
    reveal_with_fuel(ids::digits256, 5);
    let d = ids::digits256(n, 4);
    ids::lemma_digits256(n, 4);
    assert(out@.take(4) =~= d);
    assert(out@.skip(4) =~= body@);
    assert(d[3] == (n % 256) as u8);
    assert(d[2] == (n / 256 % 256) as u8);
    assert(d[1] == (n / 256 / 256 % 256) as u8);
    assert(d[0] == (n / 256 / 256 / 256 % 256) as u8);
    assert(out@[0] == d[0] && out@[1] == d[1] && out@[2] == d[2] && out@[3] == d[3]);
}

/// A stream gives back what was framed onto it, whatever follows; a body over 256 KiB is
/// refused.
pub proof fn law_stream_gives_back_what_was_framed(
    body: &[u8],
    out: Vec<u8>,
    buf: &[u8],
    rest: Seq<u8>,
    step: FrameStep,
)
    requires
        call_ensures(encode, (body,), out),
        body@.len() < 0x1_0000_0000,
        buf@ == out@ + rest,
        call_ensures(read_framed, (buf,), step),
    ensures
        body@.len() <= 262144 ==> step is Body && step->Body_0@ == body@,
        body@.len() > 262144 ==> step is TooLarge && step->TooLarge_0 == body@.len(),
{
    wire::law_framed_body_reads_back(body@, rest);
}

/// A stream that holds only a part of a frame asks for what is missing: the rest of the
/// length first, then the rest of the body.
pub proof fn law_stream_asks_for_what_is_missing(
    body: &[u8],
    out: Vec<u8>,
    buf: &[u8],
    k: int,
    step: FrameStep,
)
    requires
        call_ensures(encode, (body,), out),
        body@.len() <= 262144,
        0 <= k < out@.len(),
        buf@ == out@.take(k),
        call_ensures(read_framed, (buf,), step),
    ensures
        k < 4 ==> step is Need && step->Need_0 == 4 - k,
        k >= 4 ==> step is Need && step->Need_0 == out@.len() - k,
{
    wire::law_framed_body_reads_back(body@, Seq::<u8>::empty());
    assert(wire::frame(body@) + Seq::<u8>::empty() =~= wire::frame(body@));
    if k >= 4 {
        assert(buf@.take(4) =~= wire::frame(body@).take(4));
    }
    ids::lemma_digits256((body@.len() % 0x1_0000_0000) as nat, 4);
}

// ---- dials and messages ----

/// The dials in flight are those that were and those that started.
pub proof fn law_started_dials_are_in_flight(
    d: Map<EndpointId, ()>,
    targets: Seq<EndpointId>,
    id: EndpointId,
)
    ensures
        link::started(d, targets).contains_key(id) <==> d.contains_key(id) || targets.contains(id),
{
}

/// The message for a text that is no id tells which id was wanted, the text in quotes and
/// what is wrong with it, in this order.
pub proof fn law_id_errors_tell_what_was_wrong(what: &str, e: IdError, s: String, n: usize, m: String)
    requires
        call_ensures(id_error_message, (what, &e), s),
        call_ensures(too_large_message, (n,), m),
    ensures
        s@ == "invalid "@ + what@ + " id "@ + ids::debug_text(e.given@) + ": "@ + e.detail@,
        m@ == "control message too large: "@ + number::digits(n as nat) + " bytes"@,
{
}

}
