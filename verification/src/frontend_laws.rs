//! What a frontend owes its clients, call by call, and what the request router reads.

use crate::bytes;
use crate::cli::proxy_laws;
use crate::config::FrontendConfig;
use crate::frontend;
use crate::frontend::{
    peek_head, peeked_enough, respond_json, roster_rows, run, words_of_line, ClientStep, Frontend,
    FrontendPlan, RosterRow,
};
use crate::http;
use crate::http::{
    build_request, find_headers_end, parse_head, parse_status, read_headers, HeadStep, ReqHead,
};
use crate::http_laws;
use crate::ids;
use crate::ids::{EndpointId, IdError};
use crate::message_laws;
use crate::number;
use crate::registry::SandboxRegistry;
use crate::roster::{EndpointAddr, Roster};
use crate::text;
use crate::text_laws;
use crate::topic::{topic_from_secret, TopicId};
use vstd::prelude::*;
use vstd::string::*;
use vstd::utf8::*;

verus! {

// ---- clients ----

proof fn lemma_path_of(target: Seq<char>, path: Seq<char>)
    requires
        !path.contains('?'),
    ensures
        text::before(target, '?') == path <==> target == path || (target.len() > path.len()
            && target.take(path.len() as int) == path && target[path.len() as int] == '?'),
{
    text_laws::law_parts_join_again(target, '?');
    let n = path.len() as int;
    if target == path {
        assert(text::before(target, '?') == path);
    } else if target.len() > n && target.take(n) == path && target[n] == '?' {
        assert forall|j: int| 0 <= j < n implies target[j] != '?' by {
            assert(target.take(n)[j] == path[j]);
            assert(path.contains(path[j]));
        }
        text::lemma_index_of_is(target, '?', n);
    } else if text::before(target, '?') == path {
        text::lemma_index_of(target, '?');
        let k = text::index_of(target, '?');
        assert(target.take(k).len() == k);
        if k == target.len() {
            assert(target.take(k) =~= target);
        }
    }
}

/// A frontend answers its two paths itself, with or without a query, where they are
/// fetched; every other request goes to a backend, and to none only where there is none.
pub proof fn law_everything_else_is_tunneled<A, C>(
    fe: Frontend<A, C>,
    method: &str,
    target: &str,
    step: ClientStep<A>,
)
    requires
        fe.wf(),
        call_ensures(Frontend::<A, C>::serve_client, (&fe, method, target), step),
    ensures
        ({
            let health = "/health"@;
            let roster = "/cluster/roster"@;
            let asks = |path: Seq<char>|
                method@ == "GET"@ && (target@ == path || (target@.len() > path.len()
                    && target@.take(path.len() as int) == path && target@[path.len() as int]
                    == '?'));
            &&& step is Health <==> asks(health)
            &&& step is Roster <==> asks(roster)
            &&& step is Health ==> step->backends == fe.roster@.len()
            &&& step is Tunnel ==> fe.roster@.contains_key(step->id)
            &&& step is Unavailable ==> forall|id: EndpointId| !fe.roster@.contains_key(id)
        }),
{
    reveal_strlit("/health");
    reveal_strlit("/cluster/roster");
    assert("/health"@.len() != "/cluster/roster"@.len());
    assert(!"/health"@.contains('?')) by {
        if "/health"@.contains('?') {
            let i = choose|i: int| 0 <= i < "/health"@.len() && "/health"@[i] == '?';
        }
    }
    assert(!"/cluster/roster"@.contains('?')) by {
        if "/cluster/roster"@.contains('?') {
            let i = choose|i: int| 0 <= i < "/cluster/roster"@.len() && "/cluster/roster"@[i] == '?';
        }
    }
    lemma_path_of(target@, "/health"@);
    lemma_path_of(target@, "/cluster/roster"@);
    if text::before(target@, '?') == "/health"@ {
        assert(text::before(target@, '?') != "/cluster/roster"@);
    }
}

/// A request is tunneled to the backend whose id comes first, at the address that it
/// announced.
pub proof fn law_lowest_backend_is_tunneled_to<A, C>(
    fe: Frontend<A, C>,
    method: &str,
    target: &str,
    step: ClientStep<A>,
    other: EndpointId,
)
    requires
        fe.wf(),
        call_ensures(Frontend::<A, C>::serve_client, (&fe, method, target), step),
        step is Tunnel,
        fe.roster@.contains_key(other),
    ensures
        *step->addr == fe.roster@[step->id].addr,
        other == step->id || step->id.before(other),
{
}

/// A frontend starts with no backend and no connection.
pub proof fn law_new_frontend_is_empty<A, C>(fe: Frontend<A, C>, id: EndpointId)
    requires
        call_ensures(Frontend::<A, C>::new, (), fe),
    ensures
        !fe.roster@.contains_key(id),
        !fe.conns@.contains_key(id),
{
}

/// The backend whose id comes first is picked, at the address that it announced, wherever
/// there is a backend.
pub proof fn law_first_backend_is_picked<A, C>(
    fe: Frontend<A, C>,
    r: Option<(EndpointId, &EndpointAddr<A>)>,
    other: EndpointId,
)
    requires
        call_ensures(Frontend::<A, C>::pick, (&fe,), r),
        fe.roster@.contains_key(other),
    ensures
        r is Some,
        fe.roster@.contains_key((r->0).0),
        *(r->0).1 == fe.roster@[(r->0).0].addr,
        other == (r->0).0 || (r->0).0.before(other),
{
}

/// A cached connection is used exactly where it is open.
pub proof fn law_open_connections_are_used<A, C, F: Fn(&C) -> bool>(
    fe: Frontend<A, C>,
    id: &EndpointId,
    open: F,
    good: spec_fn(C) -> bool,
    r: Option<&C>,
)
    requires
        forall|c: &C, b: bool| #[trigger] call_ensures(open, (c,), b) ==> b == good(*c),
        call_ensures(Frontend::<A, C>::connection::<F>, (&fe, id, open), r),
    ensures
        r is Some <==> fe.conns@.contains_key(*id) && good(fe.conns@[*id]),
        r is Some ==> *r->0 == fe.conns@[*id],
{
}

/// What is peeked at is read as the text of its first line.
pub proof fn law_peeked_line_is_read_as_text(
    buf: &[u8],
    line: &[char],
    words: (String, String),
    r: (String, String),
)
    requires
        line@ == bytes::utf8_lossy(bytes::raw_line(buf@)),
        call_ensures(words_of_line, (line,), words),
        call_ensures(peek_head, (buf,), r),
    ensures
        r.0@ == words.0@,
        r.1@ == words.1@,
{
}

/// A local answer has its status: 503 where there is no backend, 200 otherwise, and none
/// where the backend answers; the body of a refusal tells why, and that of a health check
/// how many backends there are.
pub proof fn law_local_answers<'a, A>(
    step: ClientStep<'a, A>,
    status: Option<&'static str>,
    body: Option<String>,
)
    requires
        call_ensures(ClientStep::<'a, A>::status, (&step,), status),
        call_ensures(ClientStep::<'a, A>::body, (&step,), body),
    ensures
        step is Health || step is Roster ==> status is Some && status->0@ == "200 OK"@,
        step is Unavailable ==> status is Some && status->0@ == "503 Service Unavailable"@
            && body is Some && body->0@ == "{\"error\":\"no backend available\"}"@,
        step is Tunnel ==> status is None && body is None,
        step is Health ==> body is Some && body->0@ == "{\"backends\":"@ + number::digits(
            step->backends as nat,
        ) + ",\"role\":\"frontend\",\"status\":\"ok\"}"@,
{
}

/// A local answer is a response of its status whose body, announced by its length, is
/// what was to be told.
pub proof fn law_local_answers_are_responses(
    status: &str,
    body: &str,
    out: Vec<u8>,
    code: Seq<char>,
    reason: Seq<char>,
)
    requires
        call_ensures(respond_json, (status, body), out),
        status@ == code + seq![' '] + reason,
        code.len() > 0,
        number::all_digits(code),
        text::one_line(reason),
    ensures
        http::headers_end(out@) is Some,
        ({
            let end = http::headers_end(out@)->0;
            let head = http::parsed_head(out@.take(end));
            &&& head is Some
            &&& head->0.target == code
            &&& http::header_value(head->0.headers, "content-type"@) == Some("application/json"@)
            &&& http::header_value(head->0.headers, "content-length"@) == Some(
                number::digits(encode_utf8(body@).len()),
            )
            &&& http::header_value(head->0.headers, "connection"@) == Some("close"@)
            &&& out@.skip(end) == encode_utf8(body@)
        }),
{
    let crlf = seq!['\r', '\n'];
    let len = number::digits(encode_utf8(body@).len());
    let first = "HTTP/1.1 "@ + status@;
    let a = ("Content-Type"@, "application/json"@);
    let b = ("Content-Length"@, len);
    let c = ("Connection"@, "close"@);
    let none = Seq::<(Seq<char>, Seq<char>)>::empty();
    let hs = seq![a, b, c];
    reveal_with_fuel(message_laws::header_text, 4);
    assert(hs.drop_first() =~= seq![b, c]);
    assert(seq![b, c].drop_first() =~= seq![c]);
    assert(seq![c].drop_first() =~= none);
    reveal_strlit("HTTP/1.1 ");
    reveal_strlit("Content-Type");
    reveal_strlit("content-type");
    reveal_strlit("application/json");
    reveal_strlit("Content-Length");
    reveal_strlit("content-length");
    reveal_strlit("Connection");
    reveal_strlit("connection");
    reveal_strlit("close");
    reveal_strlit("\r\nContent-Type: application/json\r\nContent-Length: ");
    reveal_strlit("\r\nConnection: close\r\n\r\n");
    assert("\r\nContent-Type: application/json\r\nContent-Length: "@ =~= crlf
        + message_laws::written(a) + crlf + "Content-Length"@ + seq![':', ' ']);
    assert("\r\nConnection: close\r\n\r\n"@ =~= crlf + message_laws::written(c) + crlf + crlf);
    let chars = message_laws::head_text(first, hs);
    assert(frontend::json_response(status@, body@) =~= chars + body@) by {
        assert(message_laws::header_text(hs) =~= message_laws::written(a) + crlf
            + message_laws::written(b) + crlf + message_laws::written(c) + crlf);
    }
    http_laws::lemma_encode_concat(chars, body@);
    assert("HTTP/1.1 "@ + code + seq![' '] + reason =~= first);
    proxy_laws::lemma_status_line(code, reason);
    http_laws::lemma_digits_are_clean(encode_utf8(body@).len());
    text::lemma_trim_trimmed(len);
    text::lemma_trim_trimmed("application/json"@);
    text::lemma_trim_trimmed("close"@);
    assert(message_laws::writable(a) && message_laws::writable(b) && message_laws::writable(c));
    message_laws::law_written_message_reads_back(first, hs, encode_utf8(body@));
    let back = hs.map_values(|x: (Seq<char>, Seq<char>)| message_laws::read_back(x));
    assert(text::lower("Content-Type"@) =~= "content-type"@);
    assert(text::lower("Content-Length"@) =~= "content-length"@);
    assert(text::lower("Connection"@) =~= "connection"@);
    assert(back[0].0 == "content-type"@ && back[1].0 == "content-length"@ && back[2].0
        == "connection"@);
    assert("content-type"@.len() == 12 && "content-length"@.len() == 14 && "connection"@.len()
        == 10);
    message_laws::law_first_header_counts(back, "content-type"@, 0);
    message_laws::law_first_header_counts(back, "content-length"@, 1);
    message_laws::law_first_header_counts(back, "connection"@, 2);
    let head = encode_utf8(chars);
    assert(out@ =~= head + encode_utf8(body@));
    assert(out@.take(head.len() as int) =~= head);
    assert(out@.skip(head.len() as int) =~= encode_utf8(body@));
}

/// The request line is peeked at once it is there, and no further than 8 KiB; its first
/// two words are the method and the target, empty where there are none.
pub proof fn law_request_line_is_peeked(
    buf: &[u8],
    enough: bool,
    line: &[char],
    r: (String, String),
)
    requires
        call_ensures(peeked_enough, (buf,), enough),
        call_ensures(words_of_line, (line,), r),
        line@.len() > 0 ==> line@.last() != '\r',
    ensures
        enough <==> buf@.contains(10u8) || buf@.len() >= 8192,
        text::nth_word(line@, 0) is Some ==> r.0@ == text::nth_word(line@, 0)->0,
        text::nth_word(line@, 0) is None ==> r.0@.len() == 0,
        text::nth_word(line@, 1) is Some ==> r.1@ == text::nth_word(line@, 1)->0,
        text::nth_word(line@, 1) is None ==> r.1@.len() == 0,
{
    text_laws::law_first_lines(buf@);
    bytes::lemma_position(buf@, bytes::newline());
    if buf@.contains(10u8) {
        let i = choose|i: int| 0 <= i < buf@.len() && buf@[i] == 10;
        assert(buf@.subrange(i, i + 1) =~= bytes::newline());
        assert(bytes::stands_at(buf@, bytes::newline(), i));
    }
    if let Some(k) = bytes::position(buf@, bytes::newline()) {
        assert(buf@.subrange(k, k + 1)[0] == buf@[k]);
        assert(buf@.contains(buf@[k]));
    }
}

/// The roster is shown backend by backend: id in hexadecimal digits, epoch, age in
/// milliseconds and addresses.
pub proof fn law_roster_rows_show_the_backends<A>(
    r: Roster<A>,
    now: u64,
    v: Vec<RosterRow<A>>,
    i: int,
)
    requires
        call_ensures(roster_rows::<A>, (&r, now), v),
        0 <= i < v@.len(),
    ensures
        v@.len() == r@.len(),
        exists|id: EndpointId|
            {
                &&& #[trigger] r@.contains_key(id)
                &&& v@[i].id@ == number::hex(id.bytes())
                &&& v@[i].epoch == r@[id].epoch
                &&& r@[id].last_seen <= now ==> v@[i].age_ms == (now - r@[id].last_seen) / 1_000_000
                &&& *v@[i].addrs == r@[id].addr.addrs
            },
{
    let ids = choose|ids: Seq<EndpointId>|
        {
            &&& ids.len() == v@.len()
            &&& #[trigger] ids.no_duplicates()
            &&& forall|i: int|
                0 <= i < v@.len() ==> frontend::shows(#[trigger] v@[i], r, ids[i], now)
            &&& forall|id: EndpointId| #[trigger] r@.contains_key(id) ==> ids.contains(id)
        };
    assert(frontend::shows(v@[i], r, ids[i], now));
    assert(r@.contains_key(ids[i]));
}

/// A frontend joins the topic of its secret, from the peers that it is configured with.
pub proof fn law_frontend_joins_the_topic_of_its_secret(
    cfg: FrontendConfig,
    secret: &str,
    topic: TopicId,
    r: Result<FrontendPlan, IdError>,
)
    requires
        call_ensures(run, (&cfg,), r),
        secret@ == cfg.secret@,
        call_ensures(topic_from_secret, (secret,), topic),
    ensures
        r is Ok ==> r->Ok_0.topic.bytes@ == topic.bytes@ && r->Ok_0.peers@.len()
            == crate::util::wanted(cfg.bootstrap@).len() && forall|i: int|
            0 <= i < r->Ok_0.peers@.len() ==> ids::id_in(
                #[trigger] crate::util::wanted(cfg.bootstrap@)[i],
            ) == Some(r->Ok_0.peers@[i]),
        r is Err ==> crate::util::wanted(cfg.bootstrap@).contains(r->Err_0.given@)
            && ids::endpoint_key(r->Err_0.given@) == Err::<Seq<u8>, Seq<char>>(r->Err_0.detail@),
{
    text_laws::law_ids_are_read_in_order(crate::util::wanted(cfg.bootstrap@));
}

// ---- the registry ----

/// A sandbox is located where the registry holds it, and is known exactly then.
pub proof fn law_sandboxes_are_located(
    r: SandboxRegistry,
    sandbox: &str,
    at: Option<EndpointId>,
    known: bool,
)
    requires
        call_ensures(SandboxRegistry::locate, (&r, sandbox), at),
        call_ensures(SandboxRegistry::contains, (&r, sandbox), known),
    ensures
        known <==> r@.contains_key(sandbox@),
        at is Some <==> r@.contains_key(sandbox@),
        at is Some ==> at->0 == r@[sandbox@],
{
}

// ---- the request router ----

/// A head ends just past its first blank line; reading stops there, and at 16 KiB without
/// one.
pub proof fn law_head_ends_past_its_blank_line(buf: &[u8], step: HeadStep, k: int)
    requires
        call_ensures(read_headers, (buf,), step),
        0 <= k,
        k + 4 <= buf@.len(),
    ensures
        step is Done && step->Done_0 is Some ==> {
            let e = step->Done_0->0 as int;
            4 <= e <= buf@.len() && buf@.subrange(e - 4, e) == seq![13u8, 10u8, 13u8, 10u8]
        },
        buf@.subrange(k, k + 4) == seq![13u8, 10u8, 13u8, 10u8] ==> step is Done && step->Done_0
            is Some && step->Done_0->0 <= k + 4,
        step is Read ==> buf@.len() < 16384,
        step is Done && step->Done_0 is None ==> buf@.len() >= 16384,
{
    text_laws::law_patterns_are_found_first(buf@, bytes::blank_line(), k);
}

/// A header is found by its name in any ASCII case, and its value is that of the first
/// one; the path of a request is its target up to the query.
pub proof fn law_headers_are_found_by_name(
    h: ReqHead,
    name: &str,
    v: Option<&str>,
    path: &str,
    k: int,
)
    requires
        call_ensures(ReqHead::header, (&h, name), v),
        call_ensures(ReqHead::path, (&h,), path),
        0 <= k <= h.headers@.len(),
        forall|i: int| 0 <= i < k ==> (#[trigger] h.headers@[i]).0@ != text::lower(name@),
        k < h.headers@.len() ==> h.headers@[k].0@ == text::lower(name@),
    ensures
        k < h.headers@.len() ==> v is Some && v->0@ == h.headers@[k].1@,
        k == h.headers@.len() ==> v is None,
        !h.target@.contains('?') ==> path@ == h.target@,
        h.target@.contains('?') ==> path@ == (text::split_once(h.target@, '?')->0).0,
{
    let hs = http::pairs_view(h.headers@);
    assert forall|i: int| 0 <= i < k implies (#[trigger] hs[i]).0 != text::lower(name@) by {
        assert(h.headers@[i].0@ != text::lower(name@));
    }
    message_laws::law_first_header_counts(hs, text::lower(name@), k);
    text_laws::law_parts_join_again(h.target@, '?');
}

/// A request head is read as it was written: method, target and headers.
pub proof fn law_written_requests_are_read(
    method: Seq<char>,
    target: Seq<char>,
    hs: Seq<(Seq<char>, Seq<char>)>,
    head: &[u8],
    r: Option<ReqHead>,
    i: int,
)
    requires
        http_laws::is_word(method),
        http_laws::is_word(target),
        text::one_line(method),
        text::one_line(target),
        forall|j: int| 0 <= j < hs.len() ==> message_laws::writable(#[trigger] hs[j]),
        head@ == encode_utf8(
            message_laws::head_text(method + seq![' '] + target + " HTTP/1.1"@, hs),
        ),
        call_ensures(parse_head, (head,), r),
        0 <= i < hs.len(),
    ensures
        r is Some,
        r->0.method@ == method,
        r->0.target@ == target,
        r->0.headers@.len() == hs.len(),
        r->0.headers@[i].0@ == text::lower(hs[i].0),
        r->0.headers@[i].1@ == text::trim(hs[i].1),
{
    assert(!text::white(method[0]));
    proxy_laws::lemma_request_line_of(method, target, 0);
    let first = method + seq![' '] + target + " HTTP/1.1"@;
    message_laws::law_written_message_reads_back(first, hs, Seq::<u8>::empty());
    let back = hs.map_values(|x: (Seq<char>, Seq<char>)| message_laws::read_back(x));
    let got = http::pairs_view(r->0.headers@);
    assert(got.len() == back.len());
    assert(got[i] == back[i]);
}

/// The status of a response is read off its first line.
pub proof fn law_written_status_is_read(
    status: u16,
    reason: Seq<char>,
    rest: Seq<u8>,
    resp: &[u8],
    r: Option<u16>,
)
    requires
        text::one_line(reason),
        resp@ == encode_utf8("HTTP/1.1 "@ + number::digits(status as nat) + seq![' '] + reason)
            + seq![13u8, 10u8] + rest,
        call_ensures(parse_status, (resp,), r),
    ensures
        r == Some(status),
{
    let d = number::digits(status as nat);
    let first = "HTTP/1.1 "@ + d + seq![' '] + reason;
    number::lemma_digits(status as nat);
    proxy_laws::lemma_status_line(d, reason);
    let line = encode_utf8(first);
    http_laws::lemma_one_line_bytes(first);
    http_laws::lemma_first_line(line, rest);
    encode_utf8_valid_utf8(first);
    encode_utf8_decode_utf8(first);
    number::law_decimal_round_trip(status as nat, u16::MAX as nat);
}

// ---- requests that are passed on ----

/// A request that is passed on keeps its method, its target and every header but those of
/// its framing; it announces the length of its body, closes the connection, names no
/// transfer encoding, and ends with the body.
pub proof fn law_rebuilt_requests_keep_what_was_asked(
    head: ReqHead,
    body: &[u8],
    out: Vec<u8>,
    name: Seq<char>,
)
    requires
        call_ensures(build_request, (&head, body), out),
        http_laws::clean(head@),
        body@.len() <= usize::MAX,
        name != "content-length"@,
        name != "transfer-encoding"@,
        name != "connection"@,
    ensures
        http::headers_end(out@) is Some,
        ({
            let end = http::headers_end(out@)->0;
            let back = http::parsed_head(out@.take(end));
            &&& out@.skip(end) == body@
            &&& back is Some
            &&& back->0.method == head.method@
            &&& back->0.target == head.target@
            &&& http::announced_length(back->0.headers) == Some(body@.len())
            &&& http::header_value(back->0.headers, "connection"@) == Some("close"@)
            &&& http::header_value(back->0.headers, "transfer-encoding"@) is None
            &&& http::header_value(back->0.headers, name) == http::header_value(
                http::pairs_view(head.headers@),
                name,
            )
        }),
{
    let n = body@.len();
    let written = encode_utf8(http::request_text(head@, n));
    http_laws::law_rebuilt_head_ends_at_body(head@, body@);
    http_laws::law_rebuilt_request_reads_back(head@, n);
    http_laws::law_rebuilt_headers(head@.headers, n, name);
    assert(out@.take(written.len() as int) =~= written);
    assert(out@.skip(written.len() as int) =~= body@);
}

/// One header more is passed on as one header more, behind those before it, unless it is
/// one of the framing.
pub proof fn law_each_header_is_passed_on(
    head: ReqHead,
    more: ReqHead,
    body: &[u8],
    out: Vec<u8>,
    next: Vec<u8>,
)
    requires
        call_ensures(build_request, (&head, body), out),
        call_ensures(build_request, (&more, body), next),
        http_laws::clean(head@),
        http_laws::clean(more@),
        more@.headers.len() == head@.headers.len() + 1,
        more@.headers.drop_last() == head@.headers,
    ensures
        ({
            let x = more@.headers.last();
            let a = http::parsed_head(out@.take(http::headers_end(out@)->0))->0.headers;
            let b = http::parsed_head(next@.take(http::headers_end(next@)->0))->0.headers;
            let framing = x.0 == "content-length"@ || x.0 == "transfer-encoding"@ || x.0
                == "connection"@;
            &&& a.len() >= 2
            &&& framing ==> b == a
            &&& !framing ==> b == a.take(a.len() - 2).push(x) + a.skip(a.len() - 2)
        }),
{
    let n = body@.len();
    http_laws::law_rebuilt_head_ends_at_body(head@, body@);
    http_laws::law_rebuilt_request_reads_back(head@, n);
    http_laws::law_rebuilt_head_ends_at_body(more@, body@);
    http_laws::law_rebuilt_request_reads_back(more@, n);
    let w = encode_utf8(http::request_text(head@, n));
    let v = encode_utf8(http::request_text(more@, n));
    assert(out@.take(w.len() as int) =~= w);
    assert(next@.take(v.len() as int) =~= v);
    let x = more@.headers.last();
    let a = http::rebuilt_headers(head@.headers, n);
    let b = http::rebuilt_headers(more@.headers, n);
    if !(x.0 == "content-length"@ || x.0 == "transfer-encoding"@ || x.0 == "connection"@) {
        assert(b =~= a.take(a.len() - 2).push(x) + a.skip(a.len() - 2));
    }
}

/// The length that a head announces is the number in its first header of that name.
pub proof fn law_announced_length_is_read(h: ReqHead, r: Option<usize>, k: int)
    requires
        call_ensures(ReqHead::content_length, (&h,), r),
        0 <= k <= h.headers@.len(),
        forall|i: int| 0 <= i < k ==> (#[trigger] h.headers@[i]).0@ != "content-length"@,
        k < h.headers@.len() ==> h.headers@[k].0@ == "content-length"@,
    ensures
        k == h.headers@.len() ==> r is None,
        k < h.headers@.len() ==> match r {
            Some(n) => number::parse(text::trim(h.headers@[k].1@), usize::MAX as nat) == Some(
                n as nat,
            ),
            None => number::parse(text::trim(h.headers@[k].1@), usize::MAX as nat) is None,
        },
{
    let hs = http::pairs_view(h.headers@);
    assert forall|i: int| 0 <= i < k implies (#[trigger] hs[i]).0 != "content-length"@ by {
        assert(h.headers@[i].0@ != "content-length"@);
    }
    message_laws::law_first_header_counts(hs, "content-length"@, k);
}

/// The end of a head is where the reading of it stops.
pub proof fn law_end_of_a_head_is_found(buf: &[u8], r: Option<usize>, step: HeadStep)
    requires
        call_ensures(find_headers_end, (buf,), r),
        call_ensures(read_headers, (buf,), step),
    ensures
        r is Some <==> step is Done && step->Done_0 is Some,
        r is Some ==> r == step->Done_0,
{
}

}
