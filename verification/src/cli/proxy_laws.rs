//! What the preview proxy owes its clients and the serve API, call by call.

use crate::bytes;
use crate::cli::proxy;
use crate::cli::proxy::{
    default_serve_url, extract_host, extract_target, head_step, host_eq, host_in,
    parse_http_response, parse_preview_host, redirect_ready, redirect_to, reply, resolve_begin,
    route_host, run_redirect, status_in, strip_port, target_in, urlencode, ApiAnswer, ConnStep, HeadStep, MachineJson, PortJson, ProxyCmd,
    ProxyConfig, ProxyEnv, ProxyPlan, Refusal, RelayAction, RelayEvent, RelayPhase, ResolveAction,
    ResolvePhase, ResponseError, RouteError, ServeTarget,
};
use crate::http;
use crate::http_laws;
use crate::message_laws;
use crate::number;
use crate::text;
use crate::text_laws;
use vstd::prelude::*;
use vstd::string::*;
use vstd::utf8::*;

verus! {

// ---- requests to the serve API ----

/// The headers of a request to the serve API, as they are written.
spec fn api_headers(key: Option<Seq<char>>, body_len: Option<nat>) -> Seq<(Seq<char>, Seq<char>)> {
    let common = seq![
        ("Host"@, "localhost"@),
        ("Connection"@, "close"@),
        ("accept"@, "application/json"@),
    ];
    let with_key = match key {
        Some(k) => common.push(("authorization"@, "Bearer "@ + k)),
        None => common,
    };
    match body_len {
        Some(n) => with_key.push(("content-type"@, "application/json"@)).push(
            ("content-length"@, number::digits(n)),
        ),
        None => with_key,
    }
}

proof fn lemma_header_text_push(hs: Seq<(Seq<char>, Seq<char>)>, h: (Seq<char>, Seq<char>))
    ensures
        message_laws::header_text(hs.push(h)) == message_laws::header_text(hs)
            + message_laws::written(h) + seq!['\r', '\n'],
    decreases hs.len(),
{
    let all = hs.push(h);
    if hs.len() == 0 {
        assert(all.drop_first() =~= hs);
        assert(message_laws::header_text(all) =~= message_laws::header_text(hs)
            + message_laws::written(h) + seq!['\r', '\n']);
    } else {
        lemma_header_text_push(hs.drop_first(), h);
        assert(all.drop_first() =~= hs.drop_first().push(h));
        assert(all[0] == hs[0]);
        assert(message_laws::header_text(all) =~= message_laws::header_text(hs)
            + message_laws::written(h) + seq!['\r', '\n']);
    }
}

proof fn lemma_common_headers() -> (common: Seq<(Seq<char>, Seq<char>)>)
    ensures
        common == seq![
            ("Host"@, "localhost"@),
            ("Connection"@, "close"@),
            ("accept"@, "application/json"@),
        ],
        seq!['\r', '\n'] + message_laws::header_text(common)
            == "\r\nHost: localhost\r\nConnection: close\r\naccept: application/json\r\n"@,
{
    reveal_strlit("Host");
    reveal_strlit("localhost");
    reveal_strlit("Connection");
    reveal_strlit("close");
    reveal_strlit("accept");
    reveal_strlit("application/json");
    reveal_strlit("\r\nHost: localhost\r\nConnection: close\r\naccept: application/json\r\n");
    let a = ("Host"@, "localhost"@);
    let b = ("Connection"@, "close"@);
    let c = ("accept"@, "application/json"@);
    let none = Seq::<(Seq<char>, Seq<char>)>::empty();
    let common = seq![a, b, c];
    assert(common =~= none.push(a).push(b).push(c));
    lemma_header_text_push(none, a);
    lemma_header_text_push(none.push(a), b);
    lemma_header_text_push(none.push(a).push(b), c);
    assert(message_laws::header_text(none) =~= Seq::<char>::empty());
    assert(message_laws::written(a) =~= seq!['H', 'o', 's', 't', ':', ' '] + "localhost"@);
    assert(seq!['\r', '\n'] + message_laws::header_text(common)
        =~= "\r\nHost: localhost\r\nConnection: close\r\naccept: application/json\r\n"@);
    common
}

proof fn lemma_api_head(
    key: Option<Seq<char>>,
    method: Seq<char>,
    path: Seq<char>,
    body_len: Option<nat>,
)
    ensures
        proxy::api_head(key, method, path, body_len) == message_laws::head_text(
            method + seq![' '] + path + " HTTP/1.1"@,
            api_headers(key, body_len),
        ),
{
    let first = method + seq![' '] + path + " HTTP/1.1"@;
    let crlf = seq!['\r', '\n'];
    let common = lemma_common_headers();
    let shared = message_laws::header_text(common);
    reveal_strlit(" ");
    assert(" "@ =~= seq![' ']);
    reveal_strlit("\r\n");
    assert("\r\n"@ =~= crlf);
    reveal_strlit(" HTTP/1.1");
    reveal_strlit("\r\nHost: localhost\r\nConnection: close\r\naccept: application/json\r\n");
    reveal_strlit(" HTTP/1.1\r\nHost: localhost\r\nConnection: close\r\naccept: application/json\r\n");
    assert(" HTTP/1.1\r\nHost: localhost\r\nConnection: close\r\naccept: application/json\r\n"@
        =~= " HTTP/1.1"@
        + "\r\nHost: localhost\r\nConnection: close\r\naccept: application/json\r\n"@);
    let key_text = match key {
        Some(k) => "authorization: Bearer "@ + k + "\r\n"@,
        None => seq![],
    };
    let with_key = match key {
        Some(k) => common.push(("authorization"@, "Bearer "@ + k)),
        None => common,
    };
    assert(message_laws::header_text(with_key) =~= shared + key_text) by {
        if let Some(k) = key {
            lemma_header_text_push(common, ("authorization"@, "Bearer "@ + k));
            reveal_strlit("authorization");
            reveal_strlit("Bearer ");
            reveal_strlit("authorization: Bearer ");
            assert("authorization: Bearer "@ =~= "authorization"@ + seq![':', ' '] + "Bearer "@);
            assert(message_laws::written(("authorization"@, "Bearer "@ + k)) + crlf =~= key_text);
        }
    }
    let tail = match body_len {
        Some(n) => "content-type: application/json\r\ncontent-length: "@ + number::digits(n)
            + "\r\n\r\n"@,
        None => "\r\n"@,
    };
    let hs = api_headers(key, body_len);
    assert(message_laws::header_text(hs) + crlf =~= shared + key_text + tail) by {
        if let Some(n) = body_len {
            let t = ("content-type"@, "application/json"@);
            let l = ("content-length"@, number::digits(n));
            lemma_header_text_push(with_key, t);
            lemma_header_text_push(with_key.push(t), l);
            reveal_strlit("content-type");
            reveal_strlit("application/json");
            reveal_strlit("content-length");
            reveal_strlit("\r\n\r\n");
            assert("\r\n\r\n"@ =~= crlf + crlf);
            reveal_strlit("content-type: application/json\r\ncontent-length: ");
            assert("content-type: application/json\r\ncontent-length: "@
                =~= message_laws::written(t) + crlf + "content-length"@ + seq![':', ' ']);
            assert(tail =~= message_laws::written(t) + crlf + message_laws::written(l) + crlf
                + crlf);
        }
    }
    let a = method + " "@ + path;
    assert(proxy::api_head(key, method, path, body_len) =~= a + (" HTTP/1.1"@ + (crlf + shared))
        + key_text + tail);
    assert(message_laws::head_text(first, hs) =~= first + crlf + (message_laws::header_text(hs)
        + crlf));
    assert(a + (" HTTP/1.1"@ + (crlf + shared)) + key_text + tail =~= first + crlf + (shared
        + key_text + tail));
}

proof fn lemma_plain_value(v: Seq<char>)
    requires
        v.len() > 0,
        !text::white(v[0]),
        !text::white(v.last()),
    ensures
        text::trim(v) == v,
{
    text::lemma_trim_trimmed(v);
}

proof fn lemma_bearer(k: Seq<char>)
    requires
        text::one_line(k),
    ensures
        text::one_line("Bearer "@ + k),
        k.len() > 0 && !text::white(k.last()) ==> text::trim("Bearer "@ + k) == "Bearer "@ + k,
{
    reveal_strlit("Bearer ");
    let v = "Bearer "@ + k;
    assert forall|i: int| 0 <= i && i + 1 < v.len() implies !(#[trigger] v[i] == '\r' && v[i + 1]
        == '\n') by {
        if i >= 7 {
            assert(v[i] == k[i - 7] && v[i + 1] == k[i - 6]);
        }
    }
    if k.len() > 0 && !text::white(k.last()) {
        assert(v.last() == k.last());
        lemma_plain_value(v);
    }
}

pub proof fn lemma_request_line_of(method: Seq<char>, path: Seq<char>, i: int)
    requires
        text::one_line(method),
        text::one_line(path),
        0 <= i < method.len(),
        !text::white(method[i]),
    ensures
        ({
            let first = method + seq![' '] + path + " HTTP/1.1"@;
            &&& first.len() > 0
            &&& text::one_line(first)
            &&& text::nth_word(first, 0) is Some
            &&& text::nth_word(first, 1) is Some
            &&& http_laws::is_word(method) && http_laws::is_word(path) ==> text::nth_word(first, 0)
                == Some(method) && text::nth_word(first, 1) == Some(path)
        }),
{
    reveal_strlit(" HTTP/1.1");
    let first = method + seq![' '] + path + " HTTP/1.1"@;
    let m = method.len() as int;
    let p = path.len() as int;
    assert forall|j: int| 0 <= j && j + 1 < first.len() implies !(#[trigger] first[j] == '\r'
        && first[j + 1] == '\n') by {
        if j + 1 < m {
            assert(first[j] == method[j] && first[j + 1] == method[j + 1]);
        } else if j + 1 == m {
            assert(first[j + 1] == ' ');
        } else if m + 1 <= j && j + 1 < m + 1 + p {
            assert(first[j] == path[j - m - 1] && first[j + 1] == path[j - m]);
        }
    }
    assert(first[i] == method[i]);
    assert(first[m] == ' ');
    assert(first[m + 1 + p + 1] == 'H');
    message_laws::lemma_has_second_word(first, i, m, m + 1 + p + 1);
    if http_laws::is_word(method) && http_laws::is_word(path) {
        let none = Seq::<char>::empty();
        text_laws::law_words_are_parted_by_white_space(none, method, path, " HTTP/1.1"@);
        assert(none + method + seq![' '] + path + " HTTP/1.1"@ =~= first);
    }
}

proof fn lemma_api_headers(key: Option<Seq<char>>, body_len: Option<nat>)
    requires
        key is Some ==> text::one_line(key->0),
    ensures
        ({
            let hs = api_headers(key, body_len);
            let back = hs.map_values(|h: (Seq<char>, Seq<char>)| message_laws::read_back(h));
            &&& forall|i: int| 0 <= i < hs.len() ==> message_laws::writable(#[trigger] hs[i])
            &&& key is Some ==> http::header_value(back, "authorization"@) == Some(
                text::trim("Bearer "@ + key->0),
            )
            &&& key is None ==> http::header_value(back, "authorization"@) is None
            &&& body_len is Some ==> http::header_value(back, "content-length"@) == Some(
                number::digits(body_len->0),
            )
            &&& body_len is None ==> http::header_value(back, "content-length"@) is None
            &&& http::header_value(back, "connection"@) == Some("close"@)
            &&& http::header_value(back, "host"@) == Some("localhost"@)
        }),
{
    reveal_strlit("Host");
    reveal_strlit("host");
    reveal_strlit("localhost");
    reveal_strlit("Connection");
    reveal_strlit("connection");
    reveal_strlit("close");
    reveal_strlit("accept");
    reveal_strlit("application/json");
    reveal_strlit("authorization");
    reveal_strlit("content-type");
    reveal_strlit("content-length");
    let hs = api_headers(key, body_len);
    let back = hs.map_values(|h: (Seq<char>, Seq<char>)| message_laws::read_back(h));
    assert(text::lower("Host"@) =~= "host"@);
    assert(text::lower("Connection"@) =~= "connection"@);
    assert(text::lower("accept"@) =~= "accept"@);
    assert(text::lower("authorization"@) =~= "authorization"@);
    assert(text::lower("content-type"@) =~= "content-type"@);
    assert(text::lower("content-length"@) =~= "content-length"@);
    lemma_plain_value("localhost"@);
    lemma_plain_value("close"@);
    lemma_plain_value("application/json"@);
    if body_len is Some {
        http_laws::lemma_digits_are_clean(body_len->0);
        text::lemma_trim_trimmed(number::digits(body_len->0));
    }
    if key is Some {
        lemma_bearer(key->0);
    }
    assert(message_laws::writable(("Host"@, "localhost"@)));
    assert(message_laws::writable(("Connection"@, "close"@)));
    assert(message_laws::writable(("accept"@, "application/json"@)));
    assert(message_laws::writable(("content-type"@, "application/json"@)));
    assert("host"@.len() == 4 && "connection"@.len() == 10 && "accept"@.len() == 6
        && "authorization"@.len() == 13 && "content-type"@.len() == 12
        && "content-length"@.len() == 14);
    assert(back[0].0 == "host"@ && back[1].0 == "connection"@ && back[2].0 == "accept"@);
    message_laws::law_first_header_counts(back, "host"@, 0);
    message_laws::law_first_header_counts(back, "connection"@, 1);
    if key is Some {
        assert(hs[3] == ("authorization"@, "Bearer "@ + key->0));
        assert(back[3].0 == "authorization"@);
        message_laws::law_first_header_counts(back, "authorization"@, 3);
        if body_len is Some {
            assert(back[4].0 == "content-type"@);
            assert(back[5].0 == "content-length"@);
            message_laws::law_first_header_counts(back, "content-length"@, 5);
        } else {
            assert(back.len() == 4);
            message_laws::law_first_header_counts(back, "content-length"@, 4);
        }
    } else {
        if body_len is Some {
            assert(back[3].0 == "content-type"@);
            assert(back[4].0 == "content-length"@);
            assert(back.len() == 5);
            message_laws::law_first_header_counts(back, "content-length"@, 4);
            message_laws::law_first_header_counts(back, "authorization"@, 5);
        } else {
            assert(back.len() == 3);
            message_laws::law_first_header_counts(back, "content-length"@, 3);
            message_laws::law_first_header_counts(back, "authorization"@, 3);
        }
    }
}

/// Every request to the serve API carries the key, with a body or without one: read as a
/// request, its head has the header `authorization` with the key as its bearer token, and
/// none where no key is set. It asks for what it should, announces the length of its body
/// and closes the connection, and the body follows the head.
pub proof fn law_every_request_carries_the_key(
    cfg: ProxyConfig,
    method: &str,
    path: &str,
    body: Option<&[u8]>,
    out: Vec<u8>,
    i: int,
)
    requires
        call_ensures(ProxyConfig::serve_api, (&cfg, method, path, body), out),
        text::one_line(method@),
        text::one_line(path@),
        cfg.api_key is Some ==> text::one_line(cfg.api_key->0@),
        0 <= i < method@.len(),
        !text::white(method@[i]),
    ensures
        http::headers_end(out@) is Some,
        ({
            let end = http::headers_end(out@)->0;
            let head = http::parsed_head(out@.take(end));
            &&& head is Some
            &&& cfg.api_key is Some ==> http::header_value(head->0.headers, "authorization"@)
                == Some(text::trim("Bearer "@ + cfg.api_key->0@))
            &&& cfg.api_key is Some && cfg.api_key->0@.len() > 0 && !text::white(
                cfg.api_key->0@.last(),
            ) ==> http::header_value(head->0.headers, "authorization"@) == Some(
                "Bearer "@ + cfg.api_key->0@,
            )
            &&& cfg.api_key is None ==> http::header_value(head->0.headers, "authorization"@)
                is None
            &&& body is Some ==> http::header_value(head->0.headers, "content-length"@) == Some(
                number::digits(body->0@.len()),
            ) && out@.skip(end) == body->0@
            &&& body is None ==> http::header_value(head->0.headers, "content-length"@) is None
                && end == out@.len()
            &&& http::header_value(head->0.headers, "connection"@) == Some("close"@)
            &&& http_laws::is_word(method@) && http_laws::is_word(path@) ==> head->0.method
                == method@ && head->0.target == path@
        }),
{
    let key = text::opt(cfg.api_key);
    let n: Option<nat> = match body {
        Some(b) => Some(b@.len()),
        None => None,
    };
    let tail: Seq<u8> = match body {
        Some(b) => b@,
        None => seq![],
    };
    let first = method@ + seq![' '] + path@ + " HTTP/1.1"@;
    let hs = api_headers(key, n);
    let head = encode_utf8(message_laws::head_text(first, hs));
    lemma_api_head(key, method@, path@, n);
    lemma_request_line_of(method@, path@, i);
    lemma_api_headers(key, n);
    message_laws::law_written_message_reads_back(first, hs, tail);
    assert(out@ =~= head + tail);
    assert(out@.take(head.len() as int) =~= head);
    assert(out@.skip(head.len() as int) =~= tail);
    if key is Some {
        lemma_bearer(key->0);
    }
}

// ---- plain replies ----

/// A plain reply has its status, announces its body and closes the connection; the body
/// tells the status again and ends with the message.
pub proof fn law_reply_tells_status_and_message(status: u16, message: &str, out: Vec<u8>)
    requires
        call_ensures(reply, (status, message), out),
    ensures
        http::headers_end(out@) is Some,
        ({
            let end = http::headers_end(out@)->0;
            let head = http::parsed_head(out@.take(end));
            let body = proxy::reply_body(status, message@);
            &&& head is Some
            &&& head->0.target == number::digits(status as nat)
            &&& http::header_value(head->0.headers, "content-length"@) == Some(
                number::digits(encode_utf8(body).len()),
            )
            &&& http::header_value(head->0.headers, "connection"@) == Some("close"@)
            &&& out@.skip(end) == encode_utf8(body)
            &&& body == number::digits(status as nat) + seq![' '] + proxy::reason_of(status) + seq![
                ':',
                ' ',
            ] + message@ + seq!['\n']
        }),
{
    let body = proxy::reply_body(status, message@);
    let crlf = seq!['\r', '\n'];
    let d = number::digits(status as nat);
    let len = number::digits(encode_utf8(body).len());
    reveal_strlit("HTTP/1.1 ");
    reveal_strlit(" ");
    reveal_strlit(": ");
    reveal_strlit("\n");
    assert(" "@ =~= seq![' ']);
    assert(": "@ =~= seq![':', ' ']);
    assert("\n"@ =~= seq!['\n']);
    let first = "HTTP/1.1 "@ + d + " "@ + proxy::reason_of(status);
    let a = ("content-type"@, "text/plain"@);
    let b = ("content-length"@, len);
    let c = ("connection"@, "close"@);
    let none = Seq::<(Seq<char>, Seq<char>)>::empty();
    let hs = none.push(a).push(b).push(c);
    lemma_header_text_push(none, a);
    lemma_header_text_push(none.push(a), b);
    lemma_header_text_push(none.push(a).push(b), c);
    assert(message_laws::header_text(none) =~= Seq::<char>::empty());
    reveal_strlit("content-type");
    reveal_strlit("text/plain");
    reveal_strlit("content-length");
    reveal_strlit("connection");
    reveal_strlit("close");
    reveal_strlit("\r\ncontent-type: text/plain\r\ncontent-length: ");
    reveal_strlit("\r\nconnection: close\r\n\r\n");
    assert("\r\ncontent-type: text/plain\r\ncontent-length: "@ =~= crlf + message_laws::written(a)
        + crlf + "content-length"@ + seq![':', ' ']);
    assert("\r\nconnection: close\r\n\r\n"@ =~= crlf + message_laws::written(c) + crlf + crlf);
    let h = message_laws::head_text(first, hs);
    assert(proxy::reply_text(status, message@) =~= h + body) by {
        assert(message_laws::header_text(hs) =~= message_laws::written(a) + crlf
            + message_laws::written(b) + crlf + message_laws::written(c) + crlf);
        assert(h =~= first + "\r\ncontent-type: text/plain\r\ncontent-length: "@ + len
            + "\r\nconnection: close\r\n\r\n"@);
    }
    http_laws::lemma_encode_concat(h, body);
    // the first line
    number::lemma_digits(status as nat);
    lemma_reason(status);
    lemma_status_line(d, proxy::reason_of(status));
    // the headers
    http_laws::lemma_digits_are_clean(encode_utf8(body).len());
    text::lemma_trim_trimmed(len);
    lemma_plain_value("text/plain"@);
    lemma_plain_value("close"@);
    assert(message_laws::writable(a) && message_laws::writable(b) && message_laws::writable(c));
    message_laws::law_written_message_reads_back(first, hs, encode_utf8(body));
    let back = hs.map_values(|x: (Seq<char>, Seq<char>)| message_laws::read_back(x));
    assert(text::lower("content-type"@) =~= "content-type"@);
    assert(text::lower("content-length"@) =~= "content-length"@);
    assert(text::lower("connection"@) =~= "connection"@);
    assert(back[0].0 == "content-type"@ && back[1].0 == "content-length"@ && back[2].0
        == "connection"@);
    assert("content-type"@.len() == 12 && "content-length"@.len() == 14 && "connection"@.len()
        == 10);
    message_laws::law_first_header_counts(back, "content-length"@, 1);
    message_laws::law_first_header_counts(back, "connection"@, 2);
    let head = encode_utf8(h);
    assert(out@ =~= head + encode_utf8(body));
    assert(out@.take(head.len() as int) =~= head);
    assert(out@.skip(head.len() as int) =~= encode_utf8(body));
}

/// Reasons are phrases of one line.
proof fn lemma_reason(status: u16)
    ensures
        text::one_line(proxy::reason_of(status)),
        proxy::reason_of(status).len() > 0,
{
    reveal_strlit("Bad Request");
    reveal_strlit("Not Found");
    reveal_strlit("Conflict");
    reveal_strlit("Request Header Fields Too Large");
    reveal_strlit("Bad Gateway");
    reveal_strlit("Error");
}

/// The first line of a response: the protocol, the status and more.
pub proof fn lemma_status_line(d: Seq<char>, reason: Seq<char>)
    requires
        d.len() > 0,
        number::all_digits(d),
        text::one_line(reason),
    ensures
        ({
            let first = "HTTP/1.1 "@ + d + seq![' '] + reason;
            &&& first.len() > 0
            &&& text::one_line(first)
            &&& text::nth_word(first, 0) == Some("HTTP/1.1"@)
            &&& text::nth_word(first, 1) == Some(d)
        }),
{
    reveal_strlit("HTTP/1.1 ");
    reveal_strlit("HTTP/1.1");
    let first = "HTTP/1.1 "@ + d + seq![' '] + reason;
    let none = Seq::<char>::empty();
    let rest = seq![' '] + reason;
    assert forall|i: int| 0 <= i < d.len() implies !text::white(#[trigger] d[i]) by {
        assert(number::is_digit(d[i]));
    }
    text_laws::law_words_are_parted_by_white_space(none, "HTTP/1.1"@, d, rest);
    assert(none + "HTTP/1.1"@ + seq![' '] + d + rest =~= first);
    let n = 9 + d.len() as int;
    assert forall|j: int| 0 <= j && j + 1 < first.len() implies !(#[trigger] first[j] == '\r'
        && first[j + 1] == '\n') by {
        if 9 <= j < n {
            assert(first[j] == d[j - 9]);
            assert(number::is_digit(d[j - 9]));
        } else if n < j {
            assert(first[j] == reason[j - n - 1] && first[j + 1] == reason[j - n]);
        }
    }
}

/// Each status that the proxy answers with has its phrase.
pub proof fn law_reasons()
    ensures
        proxy::reason_of(400) == "Bad Request"@,
        proxy::reason_of(404) == "Not Found"@,
        proxy::reason_of(409) == "Conflict"@,
        proxy::reason_of(431) == "Request Header Fields Too Large"@,
        proxy::reason_of(502) == "Bad Gateway"@,
        forall|s: u16|
            s != 400 && s != 404 && s != 409 && s != 431 && s != 502 ==> #[trigger] proxy::reason_of(s)
                == "Error"@,
{
}

/// A redirect points at the same host and target under `https://`.
pub proof fn law_redirect_keeps_host_and_target(
    host: Option<String>,
    target: &str,
    out: Vec<u8>,
)
    requires
        call_ensures(redirect_to, (host, target), out),
        host is Some ==> text::one_line(host->0@ + target@),
        text::one_line(target@),
    ensures
        http::headers_end(out@) is Some,
        ({
            let head = http::parsed_head(out@.take(http::headers_end(out@)->0));
            &&& head is Some
            &&& head->0.target == seq!['3', '0', '1']
            &&& host is Some ==> http::header_value(head->0.headers, "location"@) == Some(
                text::trim("https://"@ + host->0@ + target@),
            )
            &&& host is None ==> http::header_value(head->0.headers, "location"@) == Some(
                text::trim("https://"@ + target@),
            )
            &&& http::header_value(head->0.headers, "connection"@) == Some("close"@)
        }),
{
    let body = "Redirecting to HTTPS.\n"@;
    let crlf = seq!['\r', '\n'];
    let h: Seq<char> = match host {
        Some(x) => x@,
        None => seq![],
    };
    let len = number::digits(encode_utf8(body).len());
    let place = "https://"@ + h + target@;
    let first = "HTTP/1.1 301 Moved Permanently"@;
    let a = ("Location"@, place);
    let b = ("Content-Length"@, len);
    let c = ("Connection"@, "close"@);
    let none = Seq::<(Seq<char>, Seq<char>)>::empty();
    let hs = none.push(a).push(b).push(c);
    lemma_header_text_push(none, a);
    lemma_header_text_push(none.push(a), b);
    lemma_header_text_push(none.push(a).push(b), c);
    assert(message_laws::header_text(none) =~= Seq::<char>::empty());
    reveal_strlit("https://");
    reveal_strlit("HTTP/1.1 301 Moved Permanently");
    reveal_strlit("Location");
    reveal_strlit("location");
    reveal_strlit("Content-Length");
    reveal_strlit("content-length");
    reveal_strlit("Connection");
    reveal_strlit("connection");
    reveal_strlit("close");
    reveal_strlit("HTTP/1.1 301 Moved Permanently\r\nLocation: https://");
    reveal_strlit("\r\nContent-Length: ");
    reveal_strlit("\r\nConnection: close\r\n\r\n");
    assert("HTTP/1.1 301 Moved Permanently\r\nLocation: https://"@ =~= first + crlf + "Location"@
        + seq![':', ' '] + "https://"@);
    assert("\r\nContent-Length: "@ =~= crlf + "Content-Length"@ + seq![':', ' ']);
    assert("\r\nConnection: close\r\n\r\n"@ =~= crlf + message_laws::written(c) + crlf + crlf);
    let head_chars = message_laws::head_text(first, hs);
    assert(proxy::redirect_text(text::opt(host), target@) =~= head_chars + body) by {
        assert(message_laws::header_text(hs) =~= message_laws::written(a) + crlf
            + message_laws::written(b) + crlf + message_laws::written(c) + crlf);
    }
    http_laws::lemma_encode_concat(head_chars, body);
    // the first line
    let reason = seq![
        'M', 'o', 'v', 'e', 'd', ' ', 'P', 'e', 'r', 'm', 'a', 'n', 'e', 'n', 't', 'l', 'y',
    ];
    let d = seq!['3', '0', '1'];
    reveal_strlit("HTTP/1.1 ");
    assert("HTTP/1.1 "@ + d + seq![' '] + reason =~= first);
    assert(number::all_digits(d));
    lemma_status_line(d, reason);
    // the headers
    assert forall|i: int| 0 <= i && i + 1 < place.len() implies !(#[trigger] place[i] == '\r'
        && place[i + 1] == '\n') by {
        if i >= 8 {
            let both = h + target@;
            assert(host is None ==> both =~= target@);
            assert(place[i] == both[i - 8] && place[i + 1] == both[i - 7]);
        }
    }
    http_laws::lemma_digits_are_clean(encode_utf8(body).len());
    lemma_plain_value("close"@);
    assert(message_laws::writable(a) && message_laws::writable(b) && message_laws::writable(c));
    message_laws::law_written_message_reads_back(first, hs, encode_utf8(body));
    let back = hs.map_values(|x: (Seq<char>, Seq<char>)| message_laws::read_back(x));
    assert(text::lower("Location"@) =~= "location"@);
    assert(text::lower("Content-Length"@) =~= "content-length"@);
    assert(text::lower("Connection"@) =~= "connection"@);
    assert(back[0].0 == "location"@ && back[1].0 == "content-length"@ && back[2].0
        == "connection"@);
    assert("location"@.len() == 8 && "content-length"@.len() == 14 && "connection"@.len() == 10);
    message_laws::law_first_header_counts(back, "location"@, 0);
    message_laws::law_first_header_counts(back, "connection"@, 2);
    let head = encode_utf8(head_chars);
    assert(out@ =~= head + encode_utf8(body));
    assert(out@.take(head.len() as int) =~= head);
    assert(host is None ==> place =~= "https://"@ + target@);
}

// ---- options ----

/// A serve URL names a socket or a host and port, without trailing slashes; any other URL
/// is refused.
pub proof fn law_serve_urls(url: &str, rest: Seq<char>, r: Result<ServeTarget, String>)
    requires
        call_ensures(ServeTarget::parse, (url,), r),
    ensures
        url@ == "unix://"@ + rest ==> r is Ok && r->Ok_0 is Unix && r->Ok_0->Unix_0@ == rest,
        url@ == "http://"@ + rest && (rest.len() > 0 ==> rest.last() != '/') ==> r is Ok
            && r->Ok_0 is Tcp && r->Ok_0->Tcp_0@ == rest,
        url@ == "http://"@ + rest && rest.len() > 0 && rest.last() == '/' ==> r is Ok && r->Ok_0
            is Tcp && r->Ok_0->Tcp_0@ == text::trim_end_char(rest.drop_last(), '/'),
        r is Ok <==> "unix://"@.is_prefix_of(url@) || "http://"@.is_prefix_of(url@),
        r is Err ==> r->Err_0@ == "unsupported --serve URL '"@ + url@
            + "' (use unix:///path or http://host:port)"@,
{
    reveal_strlit("unix://");
    reveal_strlit("http://");
    assert("unix://"@.len() == 7 && "http://"@.len() == 7);
    if url@ == "unix://"@ + rest {
        assert("unix://"@ =~= url@.subrange(0, 7));
        assert(url@.skip(7) =~= rest);
    }
    if url@ == "http://"@ + rest {
        assert("http://"@ =~= url@.subrange(0, 7));
        assert(url@.skip(7) =~= rest);
        assert(url@[0] == 'h');
        assert(!"unix://"@.is_prefix_of(url@)) by {
            if "unix://"@.is_prefix_of(url@) {
                assert("unix://"@[0] == url@.subrange(0, 7)[0]);
            }
        }
    }
}

/// Without a setting the serve API is the socket in the runtime directory, or the local
/// port where there is none.
pub proof fn law_default_serve_url(runtime_dir: Option<String>, s: String)
    requires
        call_ensures(default_serve_url, (&runtime_dir,), s),
    ensures
        runtime_dir is Some ==> s@ == "unix://"@ + runtime_dir->0@ + "/smolvm.sock"@,
        runtime_dir is None ==> s@ == "http://127.0.0.1:8080"@,
{
}

/// Options win over settings, and settings over defaults; key, API host and auto-resume
/// are those of the options, and TLS takes both a certificate and a key.
pub proof fn law_options_win(
    cmd: ProxyCmd,
    env: ProxyEnv,
    url: &str,
    target: Result<ServeTarget, String>,
    r: Result<ProxyPlan, String>,
)
    requires
        call_ensures(ProxyCmd::serve_forever, (&cmd, &env), r),
        cmd.serve is Some ==> url@ == cmd.serve->0@,
        cmd.serve is None && env.api_url is Some ==> url@ == env.api_url->0@,
        cmd.serve is None && env.api_url is None && env.runtime_dir is Some ==> url@
            == "unix://"@ + env.runtime_dir->0@ + "/smolvm.sock"@,
        cmd.serve is None && env.api_url is None && env.runtime_dir is None ==> url@
            == "http://127.0.0.1:8080"@,
        call_ensures(ServeTarget::parse, (url,), target),
    ensures
        r is Ok <==> target is Ok,
        r is Ok ==> {
            let c = r->Ok_0.config;
            &&& (c.serve is Unix <==> target->Ok_0 is Unix)
            &&& c.serve is Unix ==> c.serve->Unix_0@ == target->Ok_0->Unix_0@
            &&& c.serve is Tcp ==> c.serve->Tcp_0@ == target->Ok_0->Tcp_0@
            &&& c.auto_resume == cmd.auto_resume
            &&& (c.api_key is Some <==> cmd.api_key is Some)
            &&& cmd.api_key is Some ==> c.api_key->0@ == cmd.api_key->0@
            &&& (c.api_host is Some <==> cmd.api_host is Some)
            &&& cmd.api_host is Some ==> c.api_host->0@ == cmd.api_host->0@
            &&& cmd.upstream_host is Some ==> c.upstream_host@ == cmd.upstream_host->0@
            &&& cmd.upstream_host is None && env.publish_addr is Some ==> c.upstream_host@
                == env.publish_addr->0@
            &&& cmd.upstream_host is None && env.publish_addr is None ==> c.upstream_host@
                == "127.0.0.1"@
            &&& r->Ok_0.tls == (cmd.tls_cert is Some && cmd.tls_key is Some)
            &&& (r->Ok_0.redirect is Some <==> cmd.redirect_http is Some)
            &&& cmd.redirect_http is Some ==> r->Ok_0.redirect->0@ == cmd.redirect_http->0@
            &&& forall|id: Seq<char>| !c.last_touch@.contains_key(id)
        },
{
}

// ---- hosts ----

/// A port is taken off a host, and nothing else is: what follows the last colon goes only
/// where it is made of digits.
pub proof fn law_only_ports_are_taken_off(
    v: &[char],
    h: &[char],
    name: Seq<char>,
    port: Seq<char>,
)
    requires
        call_ensures(strip_port, (v,), h),
    ensures
        !v@.contains(':') ==> h@ == v@,
        v@ == name + seq![':'] + port && !port.contains(':') && (forall|i: int|
            0 <= i < port.len() ==> '0' <= #[trigger] port[i] <= '9') ==> h@ == name,
        v@ == name + seq![':'] + port && !port.contains(':') && (exists|i: int|
            0 <= i < port.len() && !('0' <= #[trigger] port[i] <= '9')) ==> h@ == v@,
{
    text_laws::law_parts_join_again(v@, ':');
    if v@ == name + seq![':'] + port && !port.contains(':') {
        let n = name.len() as int;
        assert(v@[n] == ':');
        assert(v@.contains(v@[n]));
        let p = text::rsplit_once(v@, ':')->0;
        let k = text::last_index_of(v@, ':');
        text::lemma_last_index_of(v@, ':');
        assert(n <= k);
        if n < k {
            assert(port[k - n - 1] == v@[k]);
            assert(port.contains(port[k - n - 1]));
        }
        assert(p.0 =~= name);
        assert(p.1 =~= port);
        if exists|i: int| 0 <= i < port.len() && !('0' <= #[trigger] port[i] <= '9') {
            let i = choose|i: int| 0 <= i < port.len() && !('0' <= #[trigger] port[i] <= '9');
            assert(!number::is_digit(port[i]));
        } else {
            assert forall|i: int| 0 <= i < port.len() implies number::is_digit(#[trigger] port[i]) by {}
        }
    }
}

/// The host of a request is the value of its first Host header, whatever the case of the
/// name, without a port; a head without that header names none.
pub proof fn law_first_host_header_counts(ls: Seq<Seq<char>>, k: int, name: Seq<char>, value: Seq<char>)
    requires
        0 <= k <= ls.len(),
        forall|i: int|
            0 <= i < k ==> !(#[trigger] ls[i]).contains(':') || text::lower(
                text::trim(text::before(ls[i], ':')),
            ) != "host"@,
        k < ls.len() ==> ls[k] == name + seq![':'] + value && !name.contains(':') && text::lower(
            text::trim(name),
        ) == "host"@,
    ensures
        k < ls.len() ==> proxy::first_host(ls) == Some(proxy::without_port(text::trim(value))),
        k == ls.len() ==> proxy::first_host(ls) is None,
    decreases k,
{
    reveal_strlit("host");
    assert(text::lower("host"@) =~= "host"@);
    if ls.len() > 0 {
        text_laws::law_parts_join_again(ls[0], ':');
        if k == 0 {
            let n = name.len() as int;
            assert(ls[0][n] == ':');
            assert forall|j: int| 0 <= j < n implies ls[0][j] != ':' by {
                assert(ls[0][j] == name[j]);
                assert(name.contains(name[j]));
            }
            text::lemma_index_of_is(ls[0], ':', n);
            assert(ls[0].take(n) =~= name);
            assert(ls[0].skip(n + 1) =~= value);
        } else {
            let t = ls.drop_first();
            assert forall|i: int| 0 <= i < k - 1 implies !(#[trigger] t[i]).contains(':')
                || text::lower(text::trim(text::before(t[i], ':'))) != "host"@ by {
                assert(t[i] == ls[i + 1]);
            }
            if k < ls.len() {
                assert(t[k - 1] == ls[k]);
            }
            law_first_host_header_counts(t, k - 1, name, value);
            assert(!ls[0].contains(':') || text::lower(text::trim(text::before(ls[0], ':')))
                != "host"@);
        }
    }
}

/// The host of a head is that of its lines.
pub proof fn law_host_is_looked_for_in_the_lines(head: &[char], r: Option<String>)
    requires
        call_ensures(host_in, (head,), r),
    ensures
        r is Some <==> proxy::first_host(text::lines(head@)) is Some,
        r is Some ==> r->0@ == proxy::first_host(text::lines(head@))->0,
{
}

/// A preview host is a port number and an id with a dash between them, up to the first
/// dot: exactly such hosts name a sandbox, and they name that port and that id.
pub proof fn law_preview_hosts(host: &str, r: Option<(u16, String)>)
    requires
        call_ensures(parse_preview_host, (host,), r),
    ensures
        r is Some ==> {
            let label = text::before(host@, '.');
            exists|port: Seq<char>|
                {
                    &&& label == #[trigger] (port + seq!['-']) + (r->0).1@
                    &&& !port.contains('-')
                    &&& number::parse(port, 65535) == Some((r->0).0 as nat)
                    &&& (r->0).1@.len() > 0
                }
        },
        r is None ==> {
            let label = text::before(host@, '.');
            forall|port: Seq<char>, id: Seq<char>|
                label == #[trigger] (port + seq!['-'] + id) && !port.contains('-') && id.len() > 0
                    ==> number::parse(port, 65535) is None
        },
{
    let label = text::before(host@, '.');
    text_laws::law_parts_join_again(label, '-');
    if r is Some {
        let p = text::split_once(label, '-')->0;
        assert(label == (p.0 + seq!['-']) + (r->0).1@);
    } else {
        assert forall|port: Seq<char>, id: Seq<char>|
            label == #[trigger] (port + seq!['-'] + id) && !port.contains('-') && id.len() > 0 implies number::parse(
            port,
            65535,
        ) is None by {
            let n = port.len() as int;
            assert(label[n] == '-');
            assert forall|j: int| 0 <= j < n implies label[j] != '-' by {
                assert(label[j] == port[j]);
                assert(port.contains(port[j]));
            }
            text::lemma_index_of_is(label, '-', n);
            assert(label.take(n) =~= port);
            assert(label.skip(n + 1) =~= id);
        }
    }
}

/// Hosts are the same where they differ only in ASCII case and in a port.
pub proof fn law_hosts_match_without_case_and_port(host: &str, want: &str, r: bool)
    requires
        call_ensures(host_eq, (host, want), r),
    ensures
        r <==> text::lower(proxy::without_port(host@)) == text::lower(want@),
        host@ == want@ && !host@.contains(':') ==> r,
{
    text_laws::law_parts_join_again(host@, ':');
}

/// The target of a request is the second word of its first line, and `/` where there is
/// none.
pub proof fn law_target_is_the_second_word(line: &[char], s: String)
    requires
        call_ensures(target_in, (line,), s),
    ensures
        text::nth_word(line@, 1) is Some ==> s@ == text::nth_word(line@, 1)->0,
        text::nth_word(line@, 1) is None ==> s@ == seq!['/'],
{
    reveal_strlit("/");
    assert("/"@ =~= seq!['/']);
}

/// A head is complete with its blank line, and too large beyond 64 KiB without one; a
/// redirect reads no more than 16 KiB.
pub proof fn law_heads_are_bounded(head: &[u8], r: HeadStep, ready: bool)
    requires
        call_ensures(head_step, (head,), r),
        call_ensures(redirect_ready, (head,), ready),
    ensures
        r is Complete <==> bytes::position(head@, seq![13u8, 10u8, 13u8, 10u8]) is Some,
        r is TooLarge <==> bytes::position(head@, seq![13u8, 10u8, 13u8, 10u8]) is None
            && head@.len() > 65536,
        ready <==> bytes::position(head@, seq![13u8, 10u8, 13u8, 10u8]) is Some || head@.len()
            >= 16384,
{
}

/// A request goes to the serve API where its host is the API host, to the sandbox that
/// its host names, and nowhere otherwise.
pub proof fn law_routing(
    host: Option<String>,
    api_host: Option<String>,
    name: &str,
    api: &str,
    is_api: bool,
    preview: Option<(u16, String)>,
    step: ConnStep,
)
    requires
        call_ensures(route_host, (host, &api_host), step),
        host is Some ==> name@ == host->0@ && call_ensures(parse_preview_host, (name,), preview),
        host is Some && api_host is Some ==> api@ == api_host->0@ && call_ensures(
            host_eq,
            (name, api),
            is_api,
        ),
    ensures
        host is None ==> step is Reply && step->status == 400 && step->message@
            == "missing Host header"@,
        step is Serve <==> host is Some && api_host is Some && is_api,
        host is Some && !(step is Serve) && preview is Some ==> step is Preview && step->port
            == (preview->0).0 && step->id@ == (preview->0).1@,
        host is Some && !(step is Serve) && preview is None ==> step is Reply && step->status
            == 404,
{
}

/// Each reason to refuse has its status and its message.
pub proof fn law_refusals_have_their_status(
    e: RouteError,
    x: (u16, &'static str),
    r: Refusal,
    y: (u16, &'static str),
)
    requires
        call_ensures(RouteError::reply, (&e,), x),
        call_ensures(Refusal::reply, (&r,), y),
    ensures
        e is NotFound ==> x.0 == 404 && x.1@ == "sandbox not found"@,
        e is Paused ==> x.0 == 409 && x.1@ == "sandbox is paused (auto-resume disabled)"@,
        e is PortNotPublished ==> x.0 == 502 && x.1@
            == "requested port is not published by this sandbox"@,
        e is Upstream ==> x.0 == 502 && x.1@ == "failed to resolve sandbox"@,
        r is HeadTooLarge ==> y.0 == 431 && y.1@ == "request header too large"@,
        r is ServeUnreachable ==> y.0 == 502 && y.1@ == "control API is not reachable"@,
        r is SandboxUnreachable ==> y.0 == 502 && y.1@ == "sandbox service is not reachable"@,
{
}

/// The upstream of a sandbox is its published port on the host of the published ports.
pub proof fn law_upstream_is_the_published_port(cfg: ProxyConfig, port: u16, s: String)
    requires
        call_ensures(ProxyConfig::upstream_addr, (&cfg, port), s),
    ensures
        s@ == cfg.upstream_host@ + seq![':'] + number::digits(port as nat),
{
    reveal_strlit(":");
    assert(":"@ =~= seq![':']);
}

/// The paths of a machine name it, percent-encoded, under the machines of the serve API.
pub proof fn law_machine_paths(id: &str, written: String, tail: Seq<char>)
    requires
        call_ensures(urlencode, (id,), written),
    ensures
        proxy::machine_path(id@, tail) == "/api/v1/machines/"@ + written@ + tail,
        proxy::percent_decoded(written@) == Some(encode_utf8(id@)),
{
    proxy::law_percent_decoding_reads_back(encode_utf8(id@));
}

/// A reply of the serve API is parted at its blank line; its status is the second word of
/// its first line.
pub proof fn law_replies_are_parted_at_the_blank_line(
    b: &[u8],
    r: Result<(u16, Vec<u8>), ResponseError>,
)
    requires
        call_ensures(parse_http_response, (b,), r),
    ensures
        r == Err::<(u16, Vec<u8>), ResponseError>(ResponseError::Malformed) <==> bytes::position(
            b@,
            seq![13u8, 10u8, 13u8, 10u8],
        ) is None,
        r is Ok ==> {
            let k = bytes::position(b@, seq![13u8, 10u8, 13u8, 10u8])->0;
            &&& r->Ok_0.1@ == b@.skip(k + 4)
            &&& text::nth_word(bytes::utf8_lossy(bytes::raw_line(b@.take(k))), 1) is Some
            &&& number::parse(
                text::nth_word(bytes::utf8_lossy(bytes::raw_line(b@.take(k))), 1)->0,
                65535,
            ) == Some(r->Ok_0.0 as nat)
        },
{
}

// ---- refreshes ----

/// A refresh is due where none was noted, or fifteen seconds have passed since.
pub proof fn law_refreshes_are_spaced(m: Map<Seq<char>, u64>, id: Seq<char>, now: u64)
    ensures
        !m.contains_key(id) ==> proxy::touch_due(m, id, now),
        m.contains_key(id) && m[id] <= now ==> (proxy::touch_due(m, id, now) <==> now - m[id]
            >= 15_000_000_000),
{
}

// ---- the search for an upstream ----

/// The port of a guest port is that of its first mapping; there is none only where no
/// mapping names it.
pub proof fn law_first_mapping_counts(ports: Seq<PortJson>, guest: u16, k: int)
    requires
        0 <= k <= ports.len(),
        forall|i: int| 0 <= i < k ==> (#[trigger] ports[i]).guest != guest,
        k < ports.len() ==> ports[k].guest == guest,
    ensures
        k < ports.len() ==> proxy::host_port(ports, guest) == Some(ports[k].host),
        k == ports.len() ==> proxy::host_port(ports, guest) is None,
    decreases k,
{
    if k > 0 {
        let t = ports.drop_first();
        assert forall|i: int| 0 <= i < k - 1 implies (#[trigger] t[i]).guest != guest by {
            assert(t[i] == ports[i + 1]);
        }
        if k < ports.len() {
            assert(t[k - 1] == ports[k]);
        }
        law_first_mapping_counts(t, guest, k - 1);
        assert(ports[0].guest != guest);
    }
}

/// A search begins with a look at the machine.
pub proof fn law_search_begins_with_a_look(id: &str, r: (ResolvePhase, ResolveAction))
    requires
        call_ensures(resolve_begin, (id,), r),
    ensures
        r.0 is Look,
        r.1 is Get,
        r.1->Get_0@ == "/api/v1/machines/"@ + proxy::all_escaped(encode_utf8(id@)),
{
    reveal_strlit("");
    assert(""@ =~= Seq::<char>::empty());
    assert("/api/v1/machines/"@ + proxy::all_escaped(encode_utf8(id@)) + ""@
        =~= "/api/v1/machines/"@ + proxy::all_escaped(encode_utf8(id@)));
}

/// What a look at a machine leads to: an unknown machine is not found, a failing serve
/// API is reported, a paused machine is resumed or refused, and any other is tunneled to
/// where it publishes the port.
pub proof fn law_look_decides(
    cfg: ProxyConfig,
    id: &str,
    guest: u16,
    answer: ApiAnswer,
    now: u64,
    r: (ResolvePhase, ResolveAction),
)
    requires
        call_ensures(
            ProxyConfig::resolve_upstream,
            (&cfg, id, guest, ResolvePhase::Look, answer, now),
            r,
        ),
    ensures
        answer is Err ==> r.0 is Done && r.1 is Fail && r.1->Fail_0 is Upstream
            && r.1->Fail_0->Upstream_0@ == answer->Err_0@,
        answer is Ok && answer->Ok_0.0 == 404 ==> r.0 is Done && r.1 is Fail && r.1->Fail_0
            is NotFound,
        answer is Ok && answer->Ok_0.0 != 404 && (answer->Ok_0.0 < 200 || answer->Ok_0.0 >= 300)
            ==> r.0 is Done && r.1 is Fail && r.1->Fail_0 is Upstream && r.1->Fail_0->Upstream_0@
            == "GET machine -> "@ + number::digits(answer->Ok_0.0 as nat),
        answer is Ok && 200 <= answer->Ok_0.0 < 300 && answer->Ok_0.1 is Err ==> r.0 is Done
            && r.1 is Fail && r.1->Fail_0 is Upstream && r.1->Fail_0->Upstream_0@
            == answer->Ok_0.1->Err_0@,
        answer is Ok && 200 <= answer->Ok_0.0 < 300 && answer->Ok_0.1 is Ok ==> {
            let m = answer->Ok_0.1->Ok_0;
            &&& m.state@ == "paused"@ && cfg.auto_resume ==> r.0 is Resume && r.1 is Post
                && r.1->Post_0@ == "/api/v1/machines/"@ + proxy::all_escaped(encode_utf8(id@))
                + "/resume"@
            &&& m.state@ == "paused"@ && !cfg.auto_resume ==> r.0 is Done && r.1 is Fail
                && r.1->Fail_0 is Paused
            &&& m.state@ == "pausing"@ ==> r.0 is Done && r.1 is Fail && r.1->Fail_0 is Paused
            &&& m.state@ != "paused"@ && m.state@ != "pausing"@ ==> r.0 is Done && (forall|k: int|
                (0 <= k < m.ports@.len() && (#[trigger] m.ports@[k]).guest == guest && forall|
                    i: int,
                |
                    0 <= i < k ==> (#[trigger] m.ports@[i]).guest != guest) ==> r.1
                    == ResolveAction::Found(m.ports@[k].host)) && ((forall|i: int|
                0 <= i < m.ports@.len() ==> (#[trigger] m.ports@[i]).guest != guest) ==> r.1 is Fail
                && r.1->Fail_0 is PortNotPublished)
        },
{
    reveal_strlit("paused");
    reveal_strlit("pausing");
    assert("paused"@.len() != "pausing"@.len());
    if answer is Ok && 200 <= answer->Ok_0.0 < 300 && answer->Ok_0.1 is Ok {
        lemma_ends_with_port(answer->Ok_0.1->Ok_0, guest, r);
    }
}

proof fn lemma_ends_with_port(m: MachineJson, guest: u16, r: (ResolvePhase, ResolveAction))
    ensures
        proxy::ends_with_port(m, guest, r.0, r.1) ==> r.0 is Done && (forall|k: int|
            (0 <= k < m.ports@.len() && (#[trigger] m.ports@[k]).guest == guest && forall|i: int|
                0 <= i < k ==> (#[trigger] m.ports@[i]).guest != guest) ==> r.1
                == ResolveAction::Found(m.ports@[k].host)) && ((forall|i: int|
            0 <= i < m.ports@.len() ==> (#[trigger] m.ports@[i]).guest != guest) ==> r.1 is Fail
            && r.1->Fail_0 is PortNotPublished),
{
    if proxy::ends_with_port(m, guest, r.0, r.1) {
        assert forall|k: int|
            (0 <= k < m.ports@.len() && (#[trigger] m.ports@[k]).guest == guest && forall|i: int|
                0 <= i < k ==> (#[trigger] m.ports@[i]).guest != guest) implies r.1
            == ResolveAction::Found(m.ports@[k].host) by {
            law_first_mapping_counts(m.ports@, guest, k);
        }
        if forall|i: int| 0 <= i < m.ports@.len() ==> (#[trigger] m.ports@[i]).guest != guest {
            law_first_mapping_counts(m.ports@, guest, m.ports@.len() as int);
        }
    }
}

/// A resumption that was done is followed by a second look; one that was refused by a
/// look every interval until the machine runs, for a minute.
pub proof fn law_resumption_is_waited_for(
    cfg: ProxyConfig,
    id: &str,
    guest: u16,
    phase: ResolvePhase,
    answer: ApiAnswer,
    now: u64,
    r: (ResolvePhase, ResolveAction),
)
    requires
        call_ensures(ProxyConfig::resolve_upstream, (&cfg, id, guest, phase, answer, now), r),
        phase is Resume || phase is Poll,
    ensures
        ({
            let path = "/api/v1/machines/"@ + proxy::all_escaped(encode_utf8(id@));
            let runs = answer is Ok && answer->Ok_0.1 is Ok && answer->Ok_0.1->Ok_0.state@
                == "running"@;
            &&& phase is Resume && answer is Ok && 200 <= answer->Ok_0.0 < 300 ==> r.0 is Relook
                && r.1 is Get && r.1->Get_0@ == path
            &&& phase is Resume && answer is Ok && !(200 <= answer->Ok_0.0 < 300) ==> r.0
                == ResolvePhase::Poll { since: now } && r.1 is WaitThenGet && r.1->WaitThenGet_0@
                == path
            &&& phase is Resume && answer is Err ==> r.0 is Done && r.1 is Fail && r.1->Fail_0
                is Upstream && r.1->Fail_0->Upstream_0@ == answer->Err_0@
            &&& phase is Poll && runs ==> r.0 is Relook && r.1 is Get && r.1->Get_0@ == path
            &&& phase is Poll && !runs && now < phase->since + 60_000_000_000 ==> r.0 == phase && r.1 is WaitThenGet && r.1->WaitThenGet_0@ == path
            &&& phase is Poll && !runs && now >= phase->since + 60_000_000_000 ==> r.0 is Done
                && r.1 is Fail && r.1->Fail_0 is Upstream && r.1->Fail_0->Upstream_0@
                == "sandbox did not become ready"@
        }),
{
    reveal_strlit("");
    assert(""@ =~= Seq::<char>::empty());
    let path = "/api/v1/machines/"@ + proxy::all_escaped(encode_utf8(id@));
    assert(path + ""@ =~= path);
}

/// A second look leads to the port that the machine publishes, whatever its state.
pub proof fn law_second_look_finds_the_port(
    cfg: ProxyConfig,
    id: &str,
    guest: u16,
    answer: ApiAnswer,
    now: u64,
    r: (ResolvePhase, ResolveAction),
)
    requires
        call_ensures(
            ProxyConfig::resolve_upstream,
            (&cfg, id, guest, ResolvePhase::Relook, answer, now),
            r,
        ),
    ensures
        r.0 is Done,
        answer is Err ==> r.1 is Fail && r.1->Fail_0 is Upstream && r.1->Fail_0->Upstream_0@
            == answer->Err_0@,
        answer is Ok && answer->Ok_0.1 is Err ==> r.1 is Fail && r.1->Fail_0 is Upstream
            && r.1->Fail_0->Upstream_0@ == answer->Ok_0.1->Err_0@,
        answer is Ok && answer->Ok_0.1 is Ok ==> {
            let m = answer->Ok_0.1->Ok_0;
            (forall|k: int|
                (0 <= k < m.ports@.len() && (#[trigger] m.ports@[k]).guest == guest && forall|
                    i: int,
                |
                    0 <= i < k ==> (#[trigger] m.ports@[i]).guest != guest) ==> r.1
                    == ResolveAction::Found(m.ports@[k].host)) && ((forall|i: int|
                0 <= i < m.ports@.len() ==> (#[trigger] m.ports@[i]).guest != guest) ==> r.1 is Fail
                && r.1->Fail_0 is PortNotPublished)
        },
{
    if answer is Ok && answer->Ok_0.1 is Ok {
        lemma_ends_with_port(answer->Ok_0.1->Ok_0, guest, r);
    }
}

// ---- the relay ----

/// A connection is relayed step by step: what was found is dialed, a failure is answered
/// with its status, a dialed connection is joined to the client's, and what does not belong
/// to the phase ends it. The proxy keeps its settings.
pub proof fn law_relay_goes_step_by_step(
    cfg: &mut ProxyConfig,
    phase: RelayPhase,
    event: RelayEvent,
    now: u64,
    r: (RelayPhase, RelayAction),
)
    requires
        call_ensures(ProxyConfig::relay, (cfg, phase, event, now), r),
    ensures
        phase is Resolving && event is Resolved ==> r.1 is DialSandbox && r.1->addr@ == old(cfg).upstream_host@ + seq![':'] + number::digits(event->Resolved_0 as nat) && r.0
            is DialingSandbox,
        phase is Resolving && event is Unresolved ==> r.0 is Done && r.1 is Reply,
        phase is Resolving && event is Unresolved && event->Unresolved_0 is NotFound
            ==> r.1->status == 404,
        phase is Resolving && event is Unresolved && event->Unresolved_0 is Paused ==> r.1->status
            == 409,
        phase is Resolving && event is Unresolved && (event->Unresolved_0 is PortNotPublished
            || event->Unresolved_0 is Upstream) ==> r.1->status == 502,
        (phase is DialingServe || phase is DialingSandbox) && event is Connected ==> r.1 is Tunnel
            && r.0 is Done,
        phase is DialingServe && event is ConnectFailed ==> r.1 is Reply && r.1->status == 502
            && r.1->message@ == "control API is not reachable"@ && r.0 is Done,
        phase is DialingSandbox && event is ConnectFailed ==> r.1 is Reply && r.1->status == 502
            && r.1->message@ == "sandbox service is not reachable"@ && r.0 is Done,
        phase is Done || (phase is Reading && !(event is Head)) || (phase is Resolving && !(
        event is Resolved) && !(event is Unresolved)) || ((phase is DialingServe
            || phase is DialingSandbox) && !(event is Connected) && !(event is ConnectFailed))
            ==> r.1 is Drop && r.0 is Done,
        !(phase is Resolving && event is Resolved) ==> *final(cfg) == *old(cfg),
        final(cfg).serve == old(cfg).serve,
        final(cfg).api_key == old(cfg).api_key,
        final(cfg).auto_resume == old(cfg).auto_resume,
        final(cfg).upstream_host == old(cfg).upstream_host,
        final(cfg).api_host == old(cfg).api_host,
{
    reveal_strlit(":");
    assert(":"@ =~= seq![':']);
}

/// A request whose sandbox is found counts as activity of it: its deadline is refreshed,
/// unless it was within the last fifteen seconds, and nobody else's is touched.
pub proof fn law_found_sandboxes_are_refreshed(
    cfg: &mut ProxyConfig,
    phase: RelayPhase,
    port: u16,
    now: u64,
    r: (RelayPhase, RelayAction),
    other: Seq<char>,
)
    requires
        phase is Resolving,
        call_ensures(ProxyConfig::relay, (cfg, phase, RelayEvent::Resolved(port), now), r),
        old(cfg).last_touch@.contains_key(phase->id@) ==> old(cfg).last_touch@[phase->id@] <= now,
        other != phase->id@,
    ensures
        r.1 is DialSandbox,
        r.1->touch is None <==> old(cfg).last_touch@.contains_key(phase->id@) && now - old(cfg).last_touch@[phase->id@] < 15_000_000_000,
        r.1->touch is Some ==> r.1->touch->0@ == "/api/v1/machines/"@ + proxy::all_escaped(
            encode_utf8(phase->id@),
        ) + "/touch"@ && final(cfg).last_touch@.contains_key(phase->id@) && final(cfg).last_touch@[phase->id@] == now,
        r.1->touch is None ==> final(cfg).last_touch@ == old(cfg).last_touch@,
        final(cfg).last_touch@.contains_key(other) <==> old(cfg).last_touch@.contains_key(other),
        old(cfg).last_touch@.contains_key(other) ==> final(cfg).last_touch@[other] == old(cfg).last_touch@[other],
{
}

/// A head that is complete is routed by its host, one that is too large is refused, and
/// any other is read on.
pub proof fn law_relay_routes_complete_heads(
    cfg: &mut ProxyConfig,
    b: &[u8],
    now: u64,
    r: (RelayPhase, RelayAction),
    step: ConnStep,
    size: HeadStep,
)
    requires
        call_ensures(ProxyConfig::relay, (cfg, RelayPhase::Reading, RelayEvent::Head(b), now), r),
        call_ensures(head_step, (b,), size),
        call_ensures(ProxyConfig::handle_conn, (old(cfg), b), step),
    ensures
        *final(cfg) == *old(cfg),
        size is Read ==> r.1 is Read && r.0 is Reading,
        size is TooLarge ==> r.1 is Reply && r.1->status == 431 && r.0 is Done,
        size is Complete && step is Serve ==> r.1 is DialServe && r.0 is DialingServe,
        size is Complete && step is Preview ==> r.1 is Resolve && r.1->Resolve_port
            == step->Preview_port && r.1->Resolve_id@ == step->Preview_id@ && r.0 is Resolving
            && r.0->id@ == step->Preview_id@,
        size is Complete && step is Reply ==> r.1 is Reply && r.1->Reply_status
            == step->Reply_status && r.1->Reply_message@ == step->Reply_message@ && r.0 is Done,
{
}

// ---- heads as they are read ----

/// The host and the target of a request are looked for in the text of its head, and a
/// redirect is made of the two.
pub proof fn law_heads_are_read_as_text(
    head: &[u8],
    chars: &[char],
    line: &[char],
    host: Option<String>,
    target: &str,
    h: Option<String>,
    t: String,
    named: Option<String>,
    wanted: String,
    out: Vec<u8>,
    redirect: Vec<u8>,
)
    requires
        chars@ == bytes::utf8_lossy(head@),
        line@ == bytes::utf8_lossy(bytes::first_line(head@)),
        call_ensures(host_in, (chars,), named),
        call_ensures(target_in, (line,), wanted),
        call_ensures(extract_host, (head,), h),
        call_ensures(extract_target, (head,), t),
        h is Some <==> host is Some,
        h is Some ==> h->0@ == host->0@,
        t@ == target@,
        call_ensures(run_redirect, (head,), out),
        call_ensures(redirect_to, (host, target), redirect),
    ensures
        h is Some <==> named is Some,
        h is Some ==> h->0@ == named->0@,
        t@ == wanted@,
        out@ == redirect@,
{
}

/// What is wrong with a reply of the serve API is told in words.
pub proof fn law_bad_replies_are_told(e: ResponseError, s: &'static str)
    requires
        call_ensures(ResponseError::message, (&e,), s),
    ensures
        e is Malformed ==> s@ == "malformed HTTP response from serve"@,
        e is NoStatus ==> s@ == "no status code in serve response"@,
{
}

/// The status of a status line is its second word, where that is a number of at most
/// sixteen bits.
pub proof fn law_status_is_the_second_word(line: &[char], r: Option<u16>)
    requires
        call_ensures(status_in, (line,), r),
    ensures
        text::nth_word(line@, 1) is None ==> r is None,
        text::nth_word(line@, 1) is Some ==> match r {
            Some(n) => number::parse(text::nth_word(line@, 1)->0, 65535) == Some(n as nat),
            None => number::parse(text::nth_word(line@, 1)->0, 65535) is None,
        },
{
}

/// The path segment of an id is written byte by byte: letters, digits and `-_.~` as they
/// are, every other byte as `%` and its two digits in capitals.
pub proof fn law_bytes_are_escaped_one_by_one(
    id: &str,
    written: String,
    rest: Seq<u8>,
    b: u8,
)
    requires
        call_ensures(urlencode, (id,), written),
        encode_utf8(id@) == rest.push(b),
    ensures
        ({
            let digits = "0123456789ABCDEF"@;
            let plain = ('A' as u8) <= b <= ('Z' as u8) || ('a' as u8) <= b <= ('z' as u8) || (
            '0' as u8) <= b <= ('9' as u8) || b == ('-' as u8) || b == ('_' as u8) || b == (
            '.' as u8) || b == ('~' as u8);
            written@ == proxy::all_escaped(rest) + (if plain {
                seq![b as char]
            } else {
                seq!['%', digits[b as int / 16], digits[b as int % 16]]
            })
        }),
{
    reveal_strlit("0123456789ABCDEF");
    assert(rest.push(b).drop_last() =~= rest);
    assert(b as int / 16 < 16 && b as int % 16 < 16);
}

}
