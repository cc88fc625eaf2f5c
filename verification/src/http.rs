//! Minimal HTTP/1.1 parsing for the frontend's request router.
//!
//! The frontend stays a byte tunnel for everything it can. It only needs to parse
//! far enough to route by method and path and, for the create request, to read and
//! rewrite the small body before it is forwarded.

use crate::bytes;
use crate::number;
use crate::text;
use vstd::prelude::*;
use vstd::slice::slice_subrange;
use vstd::string::*;
use vstd::utf8::*;

verus! {

/// Cap on the request head that is buffered while its end is looked for.
pub const HEAD_CAP: usize = 16384;

// ---- reading a head ----

/// What to do with a head that is being read.
pub enum HeadStep {
    /// Reading is over: the place just past the head, or `None` where there is no
    /// complete head.
    Done(Option<usize>),
    /// More bytes are wanted.
    Read,
}

/// The place just past the head's blank line.
pub open spec fn headers_end(b: Seq<u8>) -> Option<int> {
    match bytes::position(b, bytes::blank_line()) {
        Some(k) => Some(k + 4),
        None => None,
    }
}

/// The place just past the head's blank line.
pub fn find_headers_end(buf: &[u8]) -> (r: Option<usize>)
    ensures
        match r {
            Some(p) => headers_end(buf@) == Some(p as int) && p <= buf@.len(),
            None => headers_end(buf@) is None,
        },
{
    assert(buf@.len() == buf.len());
    match bytes::find_blank_line(buf) {
        Some(k) => Some(k + 4),
        None => None,
    }
}

/// Decides on the bytes buffered so far: a complete head ends the reading, and so
/// does a buffer that has reached the cap without one.
pub fn read_headers(buf: &[u8]) -> (step: HeadStep)
    ensures
        match headers_end(buf@) {
            Some(p) => step matches HeadStep::Done(Some(q)) && q == p,
            None => if buf@.len() >= HEAD_CAP {
                step == HeadStep::Done(None)
            } else {
                step == HeadStep::Read
            },
        },
{
    if let Some(p) = find_headers_end(buf) {
        return HeadStep::Done(Some(p));
    }
    if buf.len() >= HEAD_CAP {
        return HeadStep::Done(None);
    }
    HeadStep::Read
}

/// Takes in what one read returned and decides anew. Nothing read is the end of the
/// stream, and there is then no complete head.
pub fn received(buf: &mut Vec<u8>, chunk: &[u8]) -> (step: HeadStep)
    ensures
        final(buf)@ == old(buf)@ + chunk@,
        chunk@.len() == 0 ==> step == HeadStep::Done(None),
        chunk@.len() > 0 ==> match headers_end(old(buf)@ + chunk@) {
            Some(p) => step matches HeadStep::Done(Some(q)) && q == p,
            None => if old(buf)@.len() + chunk@.len() >= HEAD_CAP {
                step == HeadStep::Done(None)
            } else {
                step == HeadStep::Read
            },
        },
{
    bytes::append_bytes(buf, chunk);
    if chunk.len() == 0 {
        return HeadStep::Done(None);
    }
    read_headers(buf.as_slice())
}

/// Where a head ends does not depend on what follows it on the connection.
pub proof fn law_head_end_is_stable(b: Seq<u8>, more: Seq<u8>)
    requires
        headers_end(b) is Some,
    ensures
        headers_end(b + more) == headers_end(b),
{
    bytes::law_position_is_stable(b, more, bytes::blank_line());
}

// ---- a parsed head ----

/// A parsed request head: the method, the raw target (path and query), and headers
/// with lowercased names.
pub struct ReqHead {
    pub method: String,
    pub target: String,
    pub headers: Vec<(String, String)>,
}

/// A request head as texts.
#[verifier::ext_equal]
pub struct ReqHeadView {
    pub method: Seq<char>,
    pub target: Seq<char>,
    pub headers: Seq<(Seq<char>, Seq<char>)>,
}

/// Pairs of strings as pairs of texts.
pub open spec fn pairs_view(h: Seq<(String, String)>) -> Seq<(Seq<char>, Seq<char>)> {
    Seq::new(h.len(), |i: int| (h[i].0@, h[i].1@))
}

impl View for ReqHead {
    type V = ReqHeadView;

    open spec fn view(&self) -> ReqHeadView {
        ReqHeadView {
            method: self.method@,
            target: self.target@,
            headers: pairs_view(self.headers@),
        }
    }
}

/// The value of the first header named `name`.
pub open spec fn header_value(h: Seq<(Seq<char>, Seq<char>)>, name: Seq<char>) -> Option<Seq<char>>
    decreases h.len(),
{
    if h.len() == 0 {
        None
    } else if h[0].0 == name {
        Some(h[0].1)
    } else {
        header_value(h.drop_first(), name)
    }
}

/// The length that a head announces for its body.
pub open spec fn announced_length(h: Seq<(Seq<char>, Seq<char>)>) -> Option<nat> {
    match header_value(h, "content-length"@) {
        Some(v) => number::parse(text::trim(v), usize::MAX as nat),
        None => None,
    }
}

/// Skipping headers of other names changes nothing.
pub proof fn lemma_header_value_skip(h: Seq<(Seq<char>, Seq<char>)>, name: Seq<char>, k: int)
    requires
        0 <= k <= h.len(),
        forall|j: int| 0 <= j < k ==> (#[trigger] h[j]).0 != name,
    ensures
        header_value(h, name) == header_value(h.skip(k), name),
    decreases k,
{
    if k == 0 {
        assert(h.skip(0) =~= h);
    } else {
        let t = h.drop_first();
        assert forall|j: int| 0 <= j < k - 1 implies (#[trigger] t[j]).0 != name by {
            assert(t[j] == h[j + 1]);
        }
        assert(h[0].0 != name);
        lemma_header_value_skip(t, name, k - 1);
        assert(t.skip(k - 1) =~= h.skip(k));
    }
}

impl ReqHead {
    /// Path with any query string stripped.
    pub fn path(&self) -> (r: &str)
        ensures
            r@ == text::before(self@.target, '?'),
    {
        let c = text::chars_of(self.target.as_str());
        let k: usize = text::find(c.as_slice(), '?');
        self.target.as_str().substring_char(0, k)
    }

    /// The value of the first header named `name`, in any ASCII case.
    pub fn header(&self, name: &str) -> (r: Option<&str>)
        ensures
            match r {
                Some(v) => header_value(self@.headers, text::lower(name@)) == Some(v@),
                None => header_value(self@.headers, text::lower(name@)) is None,
            },
    {
        let want = text::to_lower(text::chars_of(name).as_slice());
        let ghost h = pairs_view(self.headers@);
        let mut i: usize = 0;
        while i < self.headers.len()
            invariant
                i <= self.headers@.len(),
                h == pairs_view(self.headers@),
                want@ == text::lower(name@),
                forall|j: int| 0 <= j < i ==> (#[trigger] h[j]).0 != want@,
            decreases self.headers@.len() - i,
        {
            if text::same_str(self.headers[i].0.as_str(), want.as_str()) {
                proof {
                    lemma_header_value_skip(h, want@, i as int);
                    assert(h.skip(i as int)[0] == h[i as int]);
                }
                return Some(self.headers[i].1.as_str());
            }
            assert(h[i as int].0 != want@);
            i = i + 1;
        }
        proof {
            lemma_header_value_skip(h, want@, i as int);
            assert(h.skip(i as int).len() == 0);
        }
        None
    }

    /// The announced length of the body.
    pub fn content_length(&self) -> (r: Option<usize>)
        ensures
            match r {
                Some(n) => announced_length(self@.headers) == Some(n as nat),
                None => announced_length(self@.headers) is None,
            },
    {
        proof {
            reveal_strlit("content-length");
            assert(text::lower("content-length"@) =~= "content-length"@);
        }
        match self.header("content-length") {
            Some(v) => {
                let c = text::chars_of(v);
                match number::parse_number(text::strip(c.as_slice()), usize::MAX as u64) {
                    Some(n) => Some(n as usize),
                    None => None,
                }
            },
            None => None,
        }
    }
}

// ---- parsing ----

/// A header line as lowercased name and value: `None` where it holds no colon.
pub open spec fn header_of(line: Seq<char>) -> Option<(Seq<char>, Seq<char>)> {
    match text::split_once(line, ':') {
        Some(p) => Some((text::lower(text::trim(p.0)), text::trim(p.1))),
        None => None,
    }
}

/// The headers in `ls`, up to the first empty line; lines without a colon are passed
/// over.
pub open spec fn headers_of(ls: Seq<Seq<char>>) -> Seq<(Seq<char>, Seq<char>)>
    decreases ls.len(),
{
    if ls.len() == 0 || ls[0].len() == 0 {
        seq![]
    } else {
        match header_of(ls[0]) {
            Some(h) => seq![h] + headers_of(ls.drop_first()),
            None => headers_of(ls.drop_first()),
        }
    }
}

/// The request head in `s`: the first line's first two words, then the headers.
pub open spec fn head_of(s: Seq<char>) -> Option<ReqHeadView> {
    let ls = text::lines(s);
    match (text::nth_word(ls[0], 0), text::nth_word(ls[0], 1)) {
        (Some(m), Some(t)) => Some(
            ReqHeadView { method: m, target: t, headers: headers_of(ls.drop_first()) },
        ),
        _ => None,
    }
}

/// The request head that the bytes encode.
pub open spec fn parsed_head(b: Seq<u8>) -> Option<ReqHeadView> {
    if valid_utf8(b) {
        head_of(decode_utf8(b))
    } else {
        None
    }
}

/// The lines still to be read.
spec fn rest_lines(more: bool, rest: Seq<char>) -> Seq<Seq<char>> {
    if more {
        text::lines(rest)
    } else {
        seq![]
    }
}

fn parse_headers(first_more: bool, first_rest: &[char]) -> (out: Vec<(String, String)>)
    ensures
        pairs_view(out@) == headers_of(rest_lines(first_more, first_rest@)),
{
    let mut out: Vec<(String, String)> = Vec::new();
    let mut more: bool = first_more;
    let mut rest: &[char] = first_rest;
    let ghost all = headers_of(rest_lines(first_more, first_rest@));
    assert(pairs_view(out@) + all =~= all);
    while more
        invariant
            all == pairs_view(out@) + headers_of(rest_lines(more, rest@)),
        decreases rest@.len() + (if more {
            1int
        } else {
            0int
        }),
    {
        let k: usize = text::find_crlf(rest);
        let line = slice_subrange(rest, 0, k);
        proof {
            text::lemma_lines_step(rest@);
        }
        let ghost was = pairs_view(out@);
        let ghost ls = text::lines(rest@);
        if line.len() == 0 {
            more = false;
            assert(pairs_view(out@) + headers_of(rest_lines(more, rest@)) =~= was);
        } else {
            match text::cut(line, ':') {
                Some((name, value)) => {
                    let n = text::to_lower(text::strip(name));
                    let v = text::string_of(text::strip(value));
                    out.push((n, v));
                    proof {
                        let h = header_of(line@)->0;
                        assert(pairs_view(out@) =~= was.push(h));
                        assert(was + (seq![h] + headers_of(ls.drop_first())) =~= was.push(h)
                            + headers_of(ls.drop_first()));
                    }
                },
                None => {},
            }
            if k < rest.len() {
                rest = slice_subrange(rest, k + 2, rest.len());
            } else {
                more = false;
            }
        }
    }
    assert(pairs_view(out@) + headers_of(rest_lines(false, rest@)) =~= pairs_view(out@));
    out
}

/// Parses the request line and headers from `head`, the bytes up to and with the
/// blank line.
pub fn parse_head(head: &[u8]) -> (r: Option<ReqHead>)
    ensures
        match r {
            Some(h) => parsed_head(head@) == Some(h@),
            None => parsed_head(head@) is None,
        },
{
    match bytes::utf8_chars(head) {
        Some(c) => parse_head_text(c.as_slice()),
        None => None,
    }
}

fn parse_head_text(s: &[char]) -> (r: Option<ReqHead>)
    ensures
        match r {
            Some(h) => head_of(s@) == Some(h@),
            None => head_of(s@) is None,
        },
{
    let k: usize = text::find_crlf(s);
    let line = slice_subrange(s, 0, k);
    proof {
        text::lemma_lines_step(s@);
    }
    let more = k < s.len();
    let rest = if more {
        slice_subrange(s, k + 2, s.len())
    } else {
        slice_subrange(s, s.len(), s.len())
    };
    match text::word_at(line, 0) {
        Some(method) => match text::word_at(line, 1) {
            Some(target) => {
                let headers = parse_headers(more, rest);
                let h = ReqHead {
                    method: text::string_of(method),
                    target: text::string_of(target),
                    headers,
                };
                Some(h)
            },
            None => None,
        },
        None => None,
    }
}

/// The status code in a response's first line.
pub open spec fn status_of(b: Seq<u8>) -> Option<nat> {
    let line = bytes::first_line(b);
    if valid_utf8(line) {
        match text::nth_word(decode_utf8(line), 1) {
            Some(w) => number::parse(w, u16::MAX as nat),
            None => None,
        }
    } else {
        None
    }
}

/// Parses the status code from a response's first line.
pub fn parse_status(resp: &[u8]) -> (r: Option<u16>)
    ensures
        match r {
            Some(n) => status_of(resp@) == Some(n as nat),
            None => status_of(resp@) is None,
        },
{
    match bytes::utf8_chars(bytes::take_first_line(resp)) {
        Some(c) => match text::word_at(c.as_slice(), 1) {
            Some(w) => match number::parse_number(w, u16::MAX as u64) {
                Some(n) => Some(n as u16),
                None => None,
            },
            None => None,
        },
        None => None,
    }
}

// ---- building ----

/// Whether a header is set by the sender itself, whatever the client sent.
pub open spec fn replaced(name: Seq<char>) -> bool {
    name == "content-length"@ || name == "transfer-encoding"@ || name == "connection"@
}

/// The headers that are passed on.
pub open spec fn kept(h: Seq<(Seq<char>, Seq<char>)>) -> Seq<(Seq<char>, Seq<char>)>
    decreases h.len(),
{
    if h.len() == 0 {
        seq![]
    } else if replaced(h.last().0) {
        kept(h.drop_last())
    } else {
        kept(h.drop_last()).push(h.last())
    }
}

/// The headers of a rebuilt request with a body of `n` bytes.
pub open spec fn rebuilt_headers(h: Seq<(Seq<char>, Seq<char>)>, n: nat) -> Seq<
    (Seq<char>, Seq<char>),
> {
    kept(h).push(("content-length"@, number::digits(n))).push(("connection"@, "close"@))
}

/// One header as a line.
pub open spec fn header_line(h: (Seq<char>, Seq<char>)) -> Seq<char> {
    h.0 + ": "@ + h.1
}

/// `ls` as text, each line with its CR LF.
pub open spec fn unlines(ls: Seq<Seq<char>>) -> Seq<char>
    decreases ls.len(),
{
    if ls.len() == 0 {
        seq![]
    } else {
        unlines(ls.drop_last()) + ls.last() + "\r\n"@
    }
}

/// The request line.
pub open spec fn request_line(h: ReqHeadView) -> Seq<char> {
    h.method + " "@ + h.target + " HTTP/1.1"@
}

/// The lines of a rebuilt request: the request line, the headers, the blank line.
pub open spec fn request_lines(h: ReqHeadView, n: nat) -> Seq<Seq<char>> {
    (seq![request_line(h)] + rebuilt_headers(h.headers, n).map_values(
        |x: (Seq<char>, Seq<char>)| header_line(x),
    )).push(seq![])
}

/// The head of a rebuilt request with a body of `n` bytes.
pub open spec fn request_text(h: ReqHeadView, n: nat) -> Seq<char> {
    unlines(request_lines(h, n))
}

/// Appends one line and its CR LF.
fn append_line(out: &mut String, line: &str, Ghost(ls): Ghost<Seq<Seq<char>>>)
    requires
        old(out)@ == unlines(ls),
    ensures
        final(out)@ == unlines(ls.push(line@)),
{
    out.append(line);
    out.append("\r\n");
    assert(ls.push(line@).drop_last() =~= ls);
}

/// Rebuilds a request with `body`, setting Content-Length and forcing
/// `Connection: close` (the routed path does not reuse connections). Existing
/// Content-Length, Transfer-Encoding and Connection headers are dropped.
pub fn build_request(head: &ReqHead, body: &[u8]) -> (out: Vec<u8>)
    ensures
        out@ == encode_utf8(request_text(head@, body@.len())) + body@,
{
    let mut s: String = String::new();
    let ghost hv = |x: (Seq<char>, Seq<char>)| header_line(x);
    let ghost mut ls: Seq<Seq<char>> = seq![];
    let mut line: String = String::new();
    line.append(head.method.as_str());
    line.append(" ");
    line.append(head.target.as_str());
    line.append(" HTTP/1.1");
    proof {
        assert(line@ =~= request_line(head@));
    }
    append_line(&mut s, line.as_str(), Ghost(ls));
    proof {
        ls = seq![request_line(head@)];
        assert(Seq::<Seq<char>>::empty().push(line@) =~= ls);
        assert(ls + kept(head@.headers.take(0)).map_values(hv) =~= ls);
    }
    let ghost first = ls;
    let mut i: usize = 0;
    while i < head.headers.len()
        invariant
            i <= head.headers@.len(),
            hv == (|x: (Seq<char>, Seq<char>)| header_line(x)),
            s@ == unlines(ls),
            ls == first + kept(head@.headers.take(i as int)).map_values(hv),
        decreases head.headers@.len() - i,
    {
        let name = head.headers[i].0.as_str();
        let ghost h = head@.headers;
        proof {
            assert(h.take(i + 1).drop_last() =~= h.take(i as int));
            assert(h.take(i + 1).last() == h[i as int]);
        }
        if text::same_str(name, "content-length") || text::same_str(name, "transfer-encoding")
            || text::same_str(name, "connection") {
        } else {
            let mut line: String = String::new();
            line.append(name);
            line.append(": ");
            line.append(head.headers[i].1.as_str());
            append_line(&mut s, line.as_str(), Ghost(ls));
            proof {
                let k = kept(h.take(i as int));
                assert(k.push(h[i as int]).map_values(hv) =~= k.map_values(hv).push(line@));
                ls = ls.push(line@);
                assert(ls =~= first + kept(h.take(i + 1)).map_values(hv));
            }
        }
        i = i + 1;
    }
    proof {
        assert(head@.headers.take(i as int) =~= head@.headers);
    }
    let mut line: String = String::new();
    line.append("content-length: ");
    let n = number::decimal(body.len() as u64);
    line.append(n.as_str());
    append_line(&mut s, line.as_str(), Ghost(ls));
    proof {
        reveal_strlit("content-length: ");
        reveal_strlit("content-length");
        reveal_strlit(": ");
        assert(line@ =~= header_line(("content-length"@, number::digits(body@.len()))));
        ls = ls.push(line@);
    }
    append_line(&mut s, "connection: close", Ghost(ls));
    proof {
        reveal_strlit("connection: close");
        reveal_strlit("connection");
        reveal_strlit("close");
        assert("connection: close"@ =~= header_line(("connection"@, "close"@)));
        ls = ls.push("connection: close"@);
    }
    append_line(&mut s, "", Ghost(ls));
    proof {
        reveal_strlit("");
        assert(""@ =~= Seq::<char>::empty());
        assert(ls.push(""@) =~= request_lines(head@, body@.len()));
    }
    let mut out = bytes::bytes_of(s.as_str());
    bytes::append_bytes(&mut out, body);
    out
}

}
