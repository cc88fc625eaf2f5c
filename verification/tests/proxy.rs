//! The preview proxy.

use smolvm_cluster::cli::proxy::{
    default_serve_url, extract_host, extract_target, head_step, host_eq, parse_http_response,
    parse_preview_host, redirect_ready, reply, resolve_begin, run_redirect, urlencode, ConnStep,
    HeadStep, MachineJson, PortJson, ProxyCmd, ProxyConfig, ProxyEnv, Refusal, RelayAction,
    RelayEvent, RelayPhase, ResolveAction, ResolvePhase, ResponseError, RouteError, ServeTarget, RESUME_READY_TIMEOUT, TOUCH_INTERVAL,
};

fn cmd() -> ProxyCmd {
    ProxyCmd {
        listen: "127.0.0.1:8080".to_string(),
        serve: Some("http://fe:9000//".to_string()),
        api_key: None,
        auto_resume: true,
        upstream_host: None,
        tls_cert: None,
        tls_key: None,
        api_host: Some("api.example.com".to_string()),
        redirect_http: None,
    }
}

fn env() -> ProxyEnv {
    ProxyEnv { api_url: None, publish_addr: None, runtime_dir: None }
}

fn config() -> ProxyConfig {
    cmd().serve_forever(&env()).ok().unwrap().config
}

fn told(state: &str, ports: &[(u16, u16)]) -> Result<MachineJson, String> {
    Ok(MachineJson {
        state: state.to_string(),
        ports: ports.iter().map(|(h, g)| PortJson { host: *h, guest: *g }).collect(),
    })
}

#[test]
fn parses_preview_host_ignoring_domain() {
    assert_eq!(
        parse_preview_host("3000-vm-abc123.preview.example.com"),
        Some((3000, "vm-abc123".to_string()))
    );
    // Any domain on the right works, including none.
    assert_eq!(
        parse_preview_host("8080-vm-xyz.localhost"),
        Some((8080, "vm-xyz".to_string()))
    );
    assert_eq!(
        parse_preview_host("443-mysandbox"),
        Some((443, "mysandbox".to_string()))
    );
}

#[test]
fn rejects_non_preview_hosts() {
    assert_eq!(parse_preview_host("example.com"), None); // no port-
    assert_eq!(parse_preview_host("notaport-vm-abc.dev"), None); // non-numeric port
    assert_eq!(parse_preview_host("3000-.dev"), None); // empty id
}

#[test]
fn extracts_host_without_port() {
    let head = b"GET / HTTP/1.1\r\nHost: 3000-vm-abc.dev:8080\r\n\r\n";
    assert_eq!(extract_host(head).as_deref(), Some("3000-vm-abc.dev"));
}

#[test]
fn parses_status_line() {
    let (s, body) = parse_http_response(b"HTTP/1.1 200 OK\r\nx: y\r\n\r\n{\"ok\":true}").unwrap();
    assert_eq!(s, 200);
    assert_eq!(body, b"{\"ok\":true}");
}

#[test]
fn ports_over_the_limit_are_no_preview() {
    assert_eq!(parse_preview_host("65535-a"), Some((65535, "a".to_string())));
    assert_eq!(parse_preview_host("65536-a"), None);
    assert_eq!(parse_preview_host("-a"), None);
}

#[test]
fn hosts_are_found_in_any_case() {
    assert_eq!(extract_host(b"GET / HTTP/1.1\r\n hOST : a \r\n\r\n").as_deref(), Some("a"));
    assert_eq!(extract_host(b"GET / HTTP/1.1\r\nx: y\r\n\r\n"), None);
    assert!(host_eq("API.example.com:443", "api.EXAMPLE.com"));
    assert!(!host_eq("api.example.org", "api.example.com"));
    assert!(host_eq("[::1]", "[::1]"));
    assert!(host_eq("[::1]:443", "[::1]"));
}

#[test]
fn only_a_port_is_taken_off_a_host() {
    let host = |h: &str| extract_host(format!("GET / HTTP/1.1\r\nHost: {h}\r\n\r\n").as_bytes());
    assert_eq!(host("[::1]").as_deref(), Some("[::1]"));
    assert_eq!(host("[::1]:8080").as_deref(), Some("[::1]"));
    assert_eq!(host("a:b").as_deref(), Some("a:b"));
    assert_eq!(host("a:").as_deref(), Some("a"));
}

#[test]
fn malformed_responses_are_told_apart() {
    assert_eq!(parse_http_response(b"HTTP/1.1 200 OK\r\n").err(), Some(ResponseError::Malformed));
    assert_eq!(parse_http_response(b"HTTP/1.1\r\n\r\n").err(), Some(ResponseError::NoStatus));
    assert_eq!(ResponseError::Malformed.message(), "malformed HTTP response from serve");
    assert_eq!(ResponseError::NoStatus.message(), "no status code in serve response");
}

#[test]
fn targets_default_to_the_root() {
    assert_eq!(extract_target(b"GET /a?b HTTP/1.1\r\n\r\n"), "/a?b");
    assert_eq!(extract_target(b"\r\n"), "/");
}

#[test]
fn ids_are_escaped_for_paths() {
    assert_eq!(urlencode("vm-abc_1.~Z"), "vm-abc_1.~Z");
    assert_eq!(urlencode("a b/é"), "a%20b%2F%C3%A9");
    // a written escape is not taken for what it stands for
    assert_eq!(urlencode("a%20b"), "a%2520b");
    assert_ne!(urlencode("a b"), urlencode("a%20b"));
}

#[test]
fn serve_urls_parse() {
    assert!(matches!(ServeTarget::parse("unix:///run/s.sock"), Ok(ServeTarget::Unix(p)) if p == "/run/s.sock"));
    assert!(matches!(ServeTarget::parse("http://h:1//"), Ok(ServeTarget::Tcp(p)) if p == "h:1"));
    assert_eq!(
        ServeTarget::parse("https://h").err().unwrap(),
        "unsupported --serve URL 'https://h' (use unix:///path or http://host:port)"
    );
    assert_eq!(default_serve_url(&Some("/run/u".to_string())), "unix:///run/u/smolvm.sock");
    assert_eq!(default_serve_url(&None), "http://127.0.0.1:8080");
}

#[test]
fn options_come_before_settings() {
    let plan = cmd().serve_forever(&env()).ok().unwrap();
    assert!(matches!(&plan.config.serve, ServeTarget::Tcp(p) if p == "fe:9000"));
    assert_eq!(plan.config.upstream_host, "127.0.0.1");
    assert!(!plan.tls);
    let mut c = cmd();
    c.serve = None;
    c.tls_cert = Some(std::path::PathBuf::from("/c"));
    c.tls_key = Some(std::path::PathBuf::from("/k"));
    let e = ProxyEnv {
        api_url: Some("unix:///s".to_string()),
        publish_addr: Some("10.0.0.1".to_string()),
        runtime_dir: None,
    };
    let plan = c.serve_forever(&e).ok().unwrap();
    assert!(matches!(&plan.config.serve, ServeTarget::Unix(p) if p == "/s"));
    assert_eq!(plan.config.upstream_addr(8000), "10.0.0.1:8000");
    assert!(plan.tls);
    c.serve = Some("ftp://x".to_string());
    assert!(c.serve_forever(&e).is_err());
}

#[test]
fn heads_are_read_up_to_a_limit() {
    assert_eq!(head_step(b"GET / HTTP/1.1\r\n\r\n"), HeadStep::Complete);
    assert_eq!(head_step(b"GET /"), HeadStep::Read);
    assert_eq!(head_step(&[b'a'; 65536]), HeadStep::Read);
    assert_eq!(head_step(&[b'a'; 65537]), HeadStep::TooLarge);
}

#[test]
fn connections_are_routed_by_host() {
    let cfg = config();
    let head = |h: &str| format!("GET / HTTP/1.1\r\nHost: {h}\r\n\r\n").into_bytes();
    assert!(matches!(cfg.handle_conn(&head("API.example.com:443")), ConnStep::Serve));
    match cfg.handle_conn(&head("3000-vm-1.a.example.com")) {
        ConnStep::Preview { port, id } => assert_eq!((port, id.as_str()), (3000, "vm-1")),
        _ => panic!("a preview"),
    }
    match cfg.handle_conn(&head("example.com")) {
        ConnStep::Reply { status, message } => {
            assert_eq!(status, 404);
            assert_eq!(message, "host must be <port>-<sandboxId>.<domain>");
        }
        _ => panic!("a reply"),
    }
    match cfg.handle_conn(b"GET / HTTP/1.1\r\n\r\n") {
        ConnStep::Reply { status, message } => {
            assert_eq!((status, message.as_str()), (400, "missing Host header"));
        }
        _ => panic!("a reply"),
    }
}

#[test]
fn replies_are_plain_text() {
    assert_eq!(
        String::from_utf8(reply(404, "sandbox not found")).unwrap(),
        "HTTP/1.1 404 Not Found\r\ncontent-type: text/plain\r\ncontent-length: 33\r\nconnection: close\r\n\r\n404 Not Found: sandbox not found\n"
    );
    for (status, reason) in [
        (400, "Bad Request"),
        (409, "Conflict"),
        (431, "Request Header Fields Too Large"),
        (502, "Bad Gateway"),
        (500, "Error"),
    ] {
        let text = String::from_utf8(reply(status, "m")).unwrap();
        assert!(text.starts_with(&format!("HTTP/1.1 {status} {reason}\r\n")));
    }
    assert_eq!(RouteError::NotFound.reply(), (404, "sandbox not found"));
    assert_eq!(RouteError::Paused.reply(), (409, "sandbox is paused (auto-resume disabled)"));
    assert_eq!(RouteError::PortNotPublished.reply().0, 502);
    assert_eq!(Refusal::HeadTooLarge.reply(), (431, "request header too large"));
    assert_eq!(Refusal::ServeUnreachable.reply(), (502, "control API is not reachable"));
    assert_eq!(Refusal::SandboxUnreachable.reply(), (502, "sandbox service is not reachable"));
    assert_eq!(RouteError::Upstream("x".to_string()).reply(), (502, "failed to resolve sandbox"));
}

#[test]
fn plain_http_is_redirected() {
    let head = b"GET /p?q HTTP/1.1\r\nHost: h.example.com:80\r\n\r\n";
    assert!(redirect_ready(head));
    assert!(!redirect_ready(b"GET"));
    assert!(redirect_ready(&[b'a'; 16384]));
    assert_eq!(
        String::from_utf8(run_redirect(head)).unwrap(),
        "HTTP/1.1 301 Moved Permanently\r\nLocation: https://h.example.com/p?q\r\nContent-Length: 22\r\nConnection: close\r\n\r\nRedirecting to HTTPS.\n"
    );
    assert!(String::from_utf8(run_redirect(b"")).unwrap().contains("Location: https:///\r\n"));
}

#[test]
fn requests_to_the_serve_api_are_framed() {
    let mut cfg = config();
    assert_eq!(
        String::from_utf8(cfg.serve_api("GET", "/x", None)).unwrap(),
        "GET /x HTTP/1.1\r\nHost: localhost\r\nConnection: close\r\naccept: application/json\r\n\r\n"
    );
    cfg.api_key = Some("k".to_string());
    assert_eq!(
        String::from_utf8(cfg.serve_api("POST", "/x", Some(b"{}"))).unwrap(),
        "POST /x HTTP/1.1\r\nHost: localhost\r\nConnection: close\r\naccept: application/json\r\nauthorization: Bearer k\r\ncontent-type: application/json\r\ncontent-length: 2\r\n\r\n{}"
    );
}

#[test]
fn a_sandbox_is_touched_once_per_interval() {
    let mut cfg = config();
    assert_eq!(cfg.maybe_touch("vm 1", 5).as_deref(), Some("/api/v1/machines/vm%201/touch"));
    assert_eq!(cfg.maybe_touch("vm 1", 5 + TOUCH_INTERVAL - 1), None);
    assert!(cfg.maybe_touch("vm 2", 6).is_some());
    assert!(cfg.maybe_touch("vm 1", 5 + TOUCH_INTERVAL).is_some());
    assert_eq!(cfg.maybe_touch("vm 1", 6 + TOUCH_INTERVAL), None);
}

fn relay_reply(action: RelayAction) -> (u16, String) {
    match action {
        RelayAction::Reply { status, message } => (status, message),
        _ => panic!("a reply"),
    }
}

#[test]
fn a_preview_connection_is_relayed() {
    let mut cfg = config();
    let part = b"GET / HTTP/1.1\r\nHost: 3000-vm 1.x\r\n";
    let (phase, action) = cfg.relay(RelayPhase::Reading, RelayEvent::Head(part), 0);
    assert!(matches!(action, RelayAction::Read));
    let whole = b"GET / HTTP/1.1\r\nHost: 3000-vm 1.x\r\n\r\n";
    let (phase, action) = cfg.relay(phase, RelayEvent::Head(whole), 0);
    match action {
        RelayAction::Resolve { id, port } => assert_eq!((id.as_str(), port), ("vm 1", 3000)),
        _ => panic!("a lookup"),
    }
    let (phase, action) = cfg.relay(phase, RelayEvent::Resolved(4100), 7);
    match action {
        RelayAction::DialSandbox { addr, touch } => {
            assert_eq!(addr, "127.0.0.1:4100");
            assert_eq!(touch.as_deref(), Some("/api/v1/machines/vm%201/touch"));
        }
        _ => panic!("a dial"),
    }
    let (phase, action) = cfg.relay(phase, RelayEvent::Connected, 8);
    assert!(matches!((&phase, action), (RelayPhase::Done, RelayAction::Tunnel)));
    assert!(matches!(cfg.relay(phase, RelayEvent::Connected, 9).1, RelayAction::Drop));
    // a second request soon after is no new refresh
    let again = RelayPhase::Resolving { id: "vm 1".to_string() };
    match cfg.relay(again, RelayEvent::Resolved(4100), 8).1 {
        RelayAction::DialSandbox { touch, .. } => assert_eq!(touch, None),
        _ => panic!("a dial"),
    }
}

#[test]
fn a_failed_connection_is_answered() {
    let mut cfg = config();
    let resolving = || RelayPhase::Resolving { id: "vm".to_string() };
    let (phase, action) = cfg.relay(resolving(), RelayEvent::Unresolved(RouteError::Paused), 0);
    assert!(matches!(phase, RelayPhase::Done));
    assert_eq!(
        relay_reply(action),
        (409, "sandbox is paused (auto-resume disabled)".to_string())
    );
    // the sandbox was not resolved, so it was not touched
    match cfg.relay(resolving(), RelayEvent::Resolved(1), 0).1 {
        RelayAction::DialSandbox { touch, .. } => assert!(touch.is_some()),
        _ => panic!("a dial"),
    }
    let (_, action) = cfg.relay(RelayPhase::DialingSandbox, RelayEvent::ConnectFailed, 0);
    assert_eq!(relay_reply(action), (502, "sandbox service is not reachable".to_string()));
    let (_, action) = cfg.relay(RelayPhase::DialingServe, RelayEvent::ConnectFailed, 0);
    assert_eq!(relay_reply(action), (502, "control API is not reachable".to_string()));
    let large = vec![b'x'; 70_000];
    let (_, action) = cfg.relay(RelayPhase::Reading, RelayEvent::Head(&large), 0);
    assert_eq!(relay_reply(action), (431, "request header too large".to_string()));
    let api = b"GET / HTTP/1.1\r\nHost: api.example.com\r\n\r\n";
    let (phase, action) = cfg.relay(RelayPhase::Reading, RelayEvent::Head(api), 0);
    assert!(matches!((phase, action), (RelayPhase::DialingServe, RelayAction::DialServe)));
    let (_, action) = cfg.relay(RelayPhase::Reading, RelayEvent::Head(b"GET / HTTP/1.1\r\n\r\n"), 0);
    assert_eq!(relay_reply(action), (400, "missing Host header".to_string()));
    let (_, action) = cfg.relay(RelayPhase::Reading, RelayEvent::Closed, 0);
    assert!(matches!(action, RelayAction::Drop));
}

#[test]
fn a_running_sandbox_is_found() {
    let cfg = config();
    let (phase, action) = resolve_begin("vm-1");
    assert!(matches!(action, ResolveAction::Get(p) if p == "/api/v1/machines/vm-1"));
    let answer = Ok((200, told("running", &[(1, 80), (2, 3000), (3, 3000)])));
    match cfg.resolve_upstream("vm-1", 3000, phase, answer, 0) {
        (ResolvePhase::Done, ResolveAction::Found(p)) => assert_eq!(p, 2),
        _ => panic!("a port"),
    }
}

#[test]
fn a_paused_sandbox_is_resumed() {
    let cfg = config();
    let paused = Ok((200, told("paused", &[])));
    let (phase, action) = cfg.resolve_upstream("a", 80, ResolvePhase::Look, paused, 0);
    assert!(matches!(action, ResolveAction::Post(p) if p == "/api/v1/machines/a/resume"));
    let (phase, action) = cfg.resolve_upstream("a", 80, phase, Ok((200, Err("-".to_string()))), 0);
    assert!(matches!(action, ResolveAction::Get(_)));
    assert_eq!(phase, ResolvePhase::Relook);
    let (_, action) =
        cfg.resolve_upstream("a", 80, phase, Ok((200, told("running", &[(9, 80)]))), 0);
    assert!(matches!(action, ResolveAction::Found(9)));
}

#[test]
fn a_contested_resume_is_polled() {
    let cfg = config();
    let conflict = Ok((409, Err("-".to_string())));
    let (phase, action) = cfg.resolve_upstream("a", 80, ResolvePhase::Resume, conflict, 7);
    assert!(matches!(action, ResolveAction::WaitThenGet(_)));
    assert_eq!(phase, ResolvePhase::Poll { since: 7 });
    let (phase, action) =
        cfg.resolve_upstream("a", 80, phase, Err("down".to_string()), 7 + RESUME_READY_TIMEOUT - 1);
    assert!(matches!(action, ResolveAction::WaitThenGet(_)));
    let (next, action) =
        cfg.resolve_upstream("a", 80, phase, Ok((200, told("running", &[]))), u64::MAX);
    assert!(matches!(action, ResolveAction::Get(_)));
    assert_eq!(next, ResolvePhase::Relook);
    let late = Ok((200, told("paused", &[])));
    match cfg.resolve_upstream("a", 80, phase, late, 7 + RESUME_READY_TIMEOUT) {
        (ResolvePhase::Done, ResolveAction::Fail(RouteError::Upstream(m))) => {
            assert_eq!(m, "sandbox did not become ready");
        }
        _ => panic!("a failure"),
    }
}

#[test]
fn a_paused_sandbox_stays_paused_without_auto_resume() {
    let mut cfg = config();
    cfg.auto_resume = false;
    for state in ["paused", "pausing"] {
        let answer = Ok((200, told(state, &[(1, 80)])));
        let (_, action) = cfg.resolve_upstream("a", 80, ResolvePhase::Look, answer, 0);
        assert!(matches!(action, ResolveAction::Fail(RouteError::Paused)));
    }
}

#[test]
fn failures_of_the_serve_api_are_told() {
    let cfg = config();
    let fail = |answer| match cfg.resolve_upstream("a", 80, ResolvePhase::Look, answer, 0) {
        (ResolvePhase::Done, ResolveAction::Fail(e)) => e,
        _ => panic!("a failure"),
    };
    assert!(matches!(fail(Ok((404, Err("-".to_string())))), RouteError::NotFound));
    assert!(matches!(fail(Ok((500, Err("-".to_string())))), RouteError::Upstream(m) if m == "GET machine -> 500"));
    assert!(matches!(fail(Ok((200, Err("bad".to_string())))), RouteError::Upstream(m) if m == "bad"));
    assert!(matches!(fail(Err("down".to_string())), RouteError::Upstream(m) if m == "down"));
    assert!(matches!(fail(Ok((200, told("stopped", &[])))), RouteError::PortNotPublished));
}
