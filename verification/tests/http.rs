//! Text, request heads and the public listener.

use smolvm_cluster::bytes::{lossy_chars, utf8_chars};
use smolvm_cluster::frontend::{
    peek_head, peeked_enough, respond_json, roster_rows, ClientStep, Frontend, RosterChange,
    TunnelEvent, TunnelStep,
};
use smolvm_cluster::http::{
    build_request, find_headers_end, parse_head, parse_status, read_headers, received, HeadStep,
};
use smolvm_cluster::ids::EndpointId;
use smolvm_cluster::number::{decimal, parse_number};
use smolvm_cluster::roster::EndpointAddr;
use smolvm_cluster::text::{chars_of, is_white, string_of, strip};
use smolvm_cluster::wire::ClusterMsg;

fn id(n: u8) -> EndpointId {
    EndpointId::from_bytes(&[n; 32])
}

fn announce(n: u8, epoch: u64) -> ClusterMsg<Vec<String>> {
    let addr = EndpointAddr { id: id(n), addrs: vec![format!("10.0.0.{n}:1")] };
    ClusterMsg::Announce { addr, epoch }
}

#[test]
fn white_space_is_that_of_the_standard_library() {
    for n in 0..=0x10ffffu32 {
        if let Some(c) = char::from_u32(n) {
            assert_eq!(is_white(c), c.is_whitespace());
        }
    }
}

#[test]
fn trimming_drops_white_space_only() {
    let c = chars_of(" \t\u{a0}a b\u{3000}\n");
    assert_eq!(string_of(strip(&c)), "a b");
}

#[test]
fn numbers_read_back() {
    for n in [0u64, 7, 10, 409, 65535, u64::MAX] {
        assert_eq!(decimal(n), n.to_string());
        assert_eq!(parse_number(&chars_of(&decimal(n)), u64::MAX), Some(n));
    }
    assert_eq!(parse_number(&chars_of("65536"), 65535), None);
    assert_eq!(parse_number(&chars_of("+80"), 65535), Some(80));
    assert_eq!(parse_number(&chars_of(""), 65535), None);
    assert_eq!(parse_number(&chars_of("-1"), 65535), None);
}

#[test]
fn bytes_are_read_as_text() {
    assert_eq!(utf8_chars("é!".as_bytes()), Some(vec!['é', '!']));
    assert_eq!(utf8_chars(&[0xff, b'a']), None);
    assert_eq!(lossy_chars(&[0xff, b'a']), vec!['\u{fffd}', 'a']);
}

#[test]
fn heads_end_at_the_blank_line() {
    assert_eq!(find_headers_end(b"a\r\n\r\nbody"), Some(5));
    assert_eq!(find_headers_end(b"a\r\nb"), None);
    assert!(matches!(read_headers(b"a\r\n\r\n"), HeadStep::Done(Some(5))));
    assert!(matches!(read_headers(b"a"), HeadStep::Read));
    assert!(matches!(read_headers(&[b'a'; 16384]), HeadStep::Done(None)));
    let mut buf = b"a\r\n\r".to_vec();
    assert!(matches!(received(&mut buf, b"\nx"), HeadStep::Done(Some(5))));
    assert_eq!(buf, b"a\r\n\r\nx");
    assert!(matches!(received(&mut buf, b""), HeadStep::Done(None)));
}

#[test]
fn heads_parse() {
    let raw = b"POST /sandboxes?x=1 HTTP/1.1\r\nHost: h\r\nContent-Length:  12 \r\nbad\r\n\r\n";
    let h = parse_head(raw).unwrap();
    assert_eq!(h.method, "POST");
    assert_eq!(h.target, "/sandboxes?x=1");
    assert_eq!(h.path(), "/sandboxes");
    assert_eq!(h.header("HOST"), Some("h"));
    assert_eq!(h.header("missing"), None);
    assert_eq!(h.content_length(), Some(12));
    assert_eq!(h.headers.len(), 2);
    assert!(parse_head(b"\r\n").is_none());
    assert!(parse_head(b"GET\r\n").is_none());
    assert!(parse_head(&[0xff]).is_none());
}

#[test]
fn rebuilt_requests_read_back() {
    let raw = b"POST /a HTTP/1.1\r\nX-A: 1\r\nConnection: keep-alive\r\nTransfer-Encoding: chunked\r\n\r\n";
    let out = build_request(&parse_head(raw).unwrap(), b"{}");
    assert_eq!(
        out,
        b"POST /a HTTP/1.1\r\nx-a: 1\r\ncontent-length: 2\r\nconnection: close\r\n\r\n{}"
    );
    let end = find_headers_end(&out).unwrap();
    assert_eq!(&out[end..], b"{}");
    let again = parse_head(&out[..end]).unwrap();
    assert_eq!(again.content_length(), Some(2));
    assert_eq!(again.header("connection"), Some("close"));
    assert_eq!(again.header("transfer-encoding"), None);
    // rebuilding once more changes nothing
    assert_eq!(build_request(&again, b"{}"), out);
    // what follows the head has no part in it
    let followed = parse_head(&out).unwrap();
    assert_eq!(followed.headers, again.headers);
    assert_eq!((followed.method, followed.target), (again.method, again.target));
}

#[test]
fn response_status_codes_parse() {
    assert_eq!(parse_status(b"HTTP/1.1 503 Nope\r\nx: y\r\n"), Some(503));
    assert_eq!(parse_status(b"HTTP/1.1 99999 Nope"), None);
    assert_eq!(parse_status(b"HTTP/1.1"), None);
}

#[test]
fn the_request_line_is_peeked() {
    assert!(!peeked_enough(b"GET / HT"));
    assert!(peeked_enough(b"GET /\n"));
    assert!(peeked_enough(&[b'x'; 8192]));
    let (m, p) = peek_head(b"GET /health?x HTTP/1.1\r\nHost: h\r\n");
    assert_eq!((m.as_str(), p.as_str()), ("GET", "/health?x"));
    let (m, p) = peek_head(b"\xffGET");
    assert_eq!((m.as_str(), p.as_str()), ("\u{fffd}GET", ""));
}

#[test]
fn json_responses_count_bytes() {
    assert_eq!(
        String::from_utf8(respond_json("200 OK", "\"é\"")).unwrap(),
        "HTTP/1.1 200 OK\r\nContent-Type: application/json\r\nContent-Length: 4\r\nConnection: close\r\n\r\n\"é\""
    );
}

#[test]
fn the_frontend_answers_two_paths_itself() {
    let mut fe: Frontend<Vec<String>, u8> = Frontend::new();
    assert!(matches!(fe.serve_client("GET", "/health?x"), ClientStep::Health { backends: 0 }));
    assert!(matches!(fe.serve_client("GET", "/cluster/roster"), ClientStep::Roster));
    assert!(matches!(fe.serve_client("POST", "/health"), ClientStep::Unavailable));
    assert_eq!(fe.serve_client("GET", "/health").status(), Some("200 OK"));
    assert_eq!(fe.serve_client("GET", "/x").status(), Some("503 Service Unavailable"));
    assert_eq!(
        fe.serve_client("GET", "/x").body().as_deref(),
        Some("{\"error\":\"no backend available\"}")
    );
    fe.heard(announce(7, 1), 0);
    fe.heard(announce(3, 1), 0);
    assert!(matches!(fe.serve_client("GET", "/health"), ClientStep::Health { backends: 2 }));
    assert_eq!(
        fe.serve_client("GET", "/health").body().as_deref(),
        Some("{\"backends\":2,\"role\":\"frontend\",\"status\":\"ok\"}")
    );
    assert_eq!(fe.serve_client("GET", "/cluster/roster").body(), None);
    assert_eq!(fe.serve_client("GET", "/").body(), None);
    match fe.serve_client("GET", "/") {
        ClientStep::Tunnel { id: picked, addr } => {
            assert_eq!(picked, id(3));
            assert_eq!(addr.addrs, vec!["10.0.0.3:1".to_string()]);
        }
        _ => panic!("a tunnel"),
    }
}

#[test]
fn announcements_change_the_roster() {
    let mut fe: Frontend<Vec<String>, u8> = Frontend::new();
    assert_eq!(fe.heard(announce(7, 5), 1_000_000), RosterChange::Joined(id(7)));
    assert_eq!(fe.heard(announce(7, 4), 3_000_000), RosterChange::Heard(id(7)));
    let rows = roster_rows(&fe.roster, 4_000_000);
    assert_eq!(rows.len(), 1);
    assert_eq!(rows[0].id, "07".repeat(32));
    assert_eq!(rows[0].epoch, 5);
    assert_eq!(rows[0].age_ms, 3);
    assert_eq!(rows[0].addrs, &vec!["10.0.0.7:1".to_string()]);
    assert_eq!(fe.heard(ClusterMsg::Withdraw { id: id(7) }, 0), RosterChange::Withdrew(id(7)));
    assert_eq!(fe.heard(ClusterMsg::Withdraw { id: id(7) }, 0), RosterChange::Nothing);
}

#[test]
fn a_tunnel_is_tried_twice() {
    let mut fe: Frontend<Vec<String>, u8> = Frontend::new();
    fe.store(id(1), 9);
    assert_eq!(fe.connection(&id(1), |_c: &u8| true), Some(&9));
    assert_eq!(fe.connection(&id(1), |_c: &u8| false), None);
    assert_eq!(fe.tunnel_step(&id(1), 0, TunnelEvent::Opened), TunnelStep::Splice);
    assert_eq!(fe.tunnel_step(&id(1), 0, TunnelEvent::OpenFailed), TunnelStep::Retry);
    assert_eq!(fe.connection(&id(1), |_c: &u8| true), None);
    assert_eq!(fe.tunnel_step(&id(1), 1, TunnelEvent::ConnectFailed), TunnelStep::GiveUp);
    fe.store(id(1), 8);
    fe.invalidate(&id(1));
    assert_eq!(fe.connection(&id(1), |_c: &u8| true), None);
}
