//! Ids, framing, tokens, topics and configuration.

use smolvm_cluster::backend::{BackendAgent, SpawnError};
use smolvm_cluster::capacity::CapacitySnapshot;
use smolvm_cluster::config::{BackendConfig, FrontendConfig, LocalServe, Role};
use smolvm_cluster::frontend;
use smolvm_cluster::identity::{
    key_file, load_or_generate, malformed_message, node_id, KeyRead, KeyStep,
};
use smolvm_cluster::ids::{parse_id, EndpointId, IdError};
use smolvm_cluster::membership::MemberRole;
use smolvm_cluster::topic::topic_from_secret;
use smolvm_cluster::util::{
    apply_bind, gather, id_error_message, now_millis, parse_ids, write_id_error,
};
use smolvm_cluster::wire::{
    encode, membership_token, read_framed, too_large_message, Control, FrameStep, MSG_CAP,
};

fn key(n: u8) -> iroh::EndpointId {
    iroh::SecretKey::from_bytes(&[n; 32]).public()
}

#[test]
fn same_secret_same_topic() {
    assert_eq!(topic_from_secret("hunter2"), topic_from_secret("hunter2"));
    assert_ne!(topic_from_secret("a"), topic_from_secret("b"));
}

#[test]
fn tokens_are_the_hash_in_hexadecimal() {
    assert_eq!(
        membership_token(""),
        "af1349b9f5f9a1a6a0404dea36dcc9499bcb25c9adc112b7cc9a93cae41f3262"
    );
    assert_eq!(membership_token("x"), blake3::hash(b"x").to_hex().to_string());
    assert_eq!(topic_from_secret("x").bytes, *blake3::hash(b"x").as_bytes());
}

#[test]
fn ids_keep_their_bytes_and_order() {
    let mut low = [7u8; 32];
    let mut high = [7u8; 32];
    low[20] = 1;
    high[20] = 2;
    let a = EndpointId::from_bytes(&low);
    let b = EndpointId::from_bytes(&high);
    assert_eq!(a.to_bytes(), low.to_vec());
    assert!(a.is_before(&b));
    assert!(!b.is_before(&a));
    assert!(!a.is_before(&a));
}

#[test]
fn ids_read_as_iroh_reads_them() {
    let k = key(3);
    let id = parse_id(&k.to_string()).ok().unwrap();
    assert_eq!(id.to_bytes(), k.as_bytes().to_vec());
    assert_eq!(id.to_text(), k.to_string());
    assert_eq!(parse_id(&id.to_text()).ok().unwrap(), id);
    let e = parse_id("nonsense").err().unwrap();
    assert_eq!(e.given, "nonsense");
    assert_eq!(e.detail, "invalid length");
}

#[test]
fn lists_of_ids_skip_blanks_and_report_the_first_bad_one() {
    let good = key(1).to_string();
    let raw = vec![format!("  {good} "), " ".to_string(), key(2).to_string()];
    let ids = parse_ids(&raw).ok().unwrap();
    assert_eq!(ids.len(), 2);
    assert_eq!(ids[0].to_text(), good);
    let e = parse_ids(&vec![good, "a\"b".to_string(), "worse".to_string()]).err().unwrap();
    assert_eq!(
        id_error_message("cluster endpoint", &e),
        "invalid cluster endpoint id \"a\\\"b\": invalid length"
    );
}

#[test]
fn frames_read_back() {
    let framed = encode(b"hello");
    assert_eq!(framed, b"\x00\x00\x00\x05hello");
    assert!(matches!(read_framed(&framed), FrameStep::Body(b) if b == b"hello"));
    assert!(matches!(read_framed(&framed[..2]), FrameStep::Need(2)));
    assert!(matches!(read_framed(&framed[..6]), FrameStep::Need(3)));
    let mut more = framed.clone();
    more.extend_from_slice(b"next");
    assert!(matches!(read_framed(&more), FrameStep::Body(b) if b == b"hello"));
}

#[test]
fn oversized_frames_are_refused() {
    let n = MSG_CAP as u32 + 1;
    let head = n.to_be_bytes();
    assert!(matches!(read_framed(&head), FrameStep::TooLarge(k) if k == n as usize));
    assert!(matches!(read_framed(&(n - 1).to_be_bytes()), FrameStep::Need(_)));
    assert_eq!(too_large_message(n as usize), "control message too large: 262145 bytes");
}

#[test]
fn roles_parse_in_any_case() {
    assert_eq!(Role::parse(" Backend\n"), Some(Role::Backend));
    assert_eq!(Role::parse("FRONTEND"), Some(Role::Frontend));
    assert_eq!(Role::parse("both"), None);
}

#[test]
fn bind_settings_get_a_port() {
    assert_eq!(apply_bind(None), None);
    assert_eq!(apply_bind(Some("  ")), None);
    assert_eq!(apply_bind(Some(" 10.0.0.7 ")), Some("10.0.0.7:0".to_string()));
    assert_eq!(apply_bind(Some("10.0.0.7:99")), Some("10.0.0.7:99".to_string()));
    assert_eq!(apply_bind(Some(" ::1 ")), Some("[::1]:0".to_string()));
    assert_eq!(apply_bind(Some("fe80::7:1")), Some("[fe80::7:1]:0".to_string()));
    assert_eq!(apply_bind(Some("[::1]:99")), Some("[::1]:99".to_string()));
}

#[test]
fn a_persisted_key_is_loaded_again() {
    let file = key_file(&iroh::SecretKey::from_bytes(&[9; 32]).to_bytes());
    assert_eq!(file.mode, 0o600);
    let bytes = file.bytes;
    assert_eq!(bytes, [9; 32]);
    match load_or_generate(KeyRead::Bytes(bytes.clone())) {
        KeyStep::Load(b) => {
            assert_eq!(b, bytes);
            let mut arr = [0u8; 32];
            arr.copy_from_slice(&b);
            assert_eq!(iroh::SecretKey::from_bytes(&arr).public(), key(9));
            assert_eq!(node_id(&arr), node_id(&[9; 32]));
        }
        _ => panic!("a key"),
    }
    assert!(matches!(load_or_generate(KeyRead::Bytes(vec![1, 2])), KeyStep::Malformed));
    assert!(matches!(load_or_generate(KeyRead::NotFound), KeyStep::Generate));
    assert!(matches!(load_or_generate(KeyRead::Failed), KeyStep::Fail));
    assert_eq!(malformed_message("/k"), "cluster key at /k is not 32 bytes");
}

fn backend_config(frontends: Vec<String>) -> BackendConfig {
    BackendConfig {
        secret: "labsecret".to_string(),
        local_serve: LocalServe::Tcp("127.0.0.1:1".to_string()),
        frontends,
        key_path: std::path::PathBuf::from("/k"),
    }
}

#[test]
fn a_backend_starts_with_its_frontends() {
    let me = EndpointId::from_bytes(&[1; 32]);
    let agent = BackendAgent::spawn(me, &backend_config(vec![key(2).to_string()])).ok().unwrap();
    assert_eq!(agent.endpoint_id(), me);
    assert_eq!(agent.frontends[0].to_text(), key(2).to_string());
    let snap =
        CapacitySnapshot { mem_available_mb: 1, running_vms: 2, cpu_used_bits: 3, stalled: false };
    match agent.push_control(0, snap) {
        Control::Hello { role, token } => {
            assert_eq!(role, MemberRole::Backend);
            assert_eq!(token, membership_token("labsecret"));
        }
        _ => panic!("a hello first"),
    }
    assert!(matches!(agent.push_control(1, snap), Control::Capacity(c) if c == snap));
}

#[test]
fn a_backend_without_a_frontend_does_not_start() {
    let me = EndpointId::from_bytes(&[1; 32]);
    let e = BackendAgent::spawn(me, &backend_config(vec![" ".to_string()])).err().unwrap();
    assert!(matches!(e, SpawnError::NoFrontend));
    assert_eq!(e.message(), "a backend needs at least one frontend to dial");
    let e = BackendAgent::spawn(me, &backend_config(vec!["x".to_string()])).err().unwrap();
    assert_eq!(e.message(), "invalid frontend id \"x\": invalid length");
}

#[test]
fn a_frontend_joins_the_topic_of_its_secret() {
    let mut cfg = FrontendConfig {
        secret: "labsecret".to_string(),
        listen: "127.0.0.1:9000".to_string(),
        bootstrap: vec![key(4).to_string()],
        key_path: std::path::PathBuf::from("/k"),
    };
    let plan = frontend::run(&cfg).ok().unwrap();
    assert_eq!(plan.topic, topic_from_secret("labsecret"));
    assert_eq!(plan.peers.len(), 1);
    cfg.bootstrap.push("y".to_string());
    assert_eq!(frontend::run(&cfg).err().unwrap().given, "y");
}

#[test]
fn a_node_keeps_the_id_of_its_key() {
    let secret = [5u8; 32];
    let id = node_id(&secret);
    assert_eq!(id, node_id(&secret));
    assert_eq!(id.to_text(), key(5).to_string());
    assert_eq!(parse_id(&id.to_text()).ok().unwrap(), id);
    assert_ne!(id, node_id(&[6u8; 32]));
}

#[test]
fn epochs_count_milliseconds() {
    assert_eq!(now_millis(Some(1_700_000_000_123)), 1_700_000_000_123);
    assert_eq!(now_millis(Some(1u128 << 64)), 0);
    assert_eq!(now_millis(None), 0);
}

#[test]
fn ids_are_gathered_up_to_the_first_failure() {
    let id = |n: u8| EndpointId::from_bytes(&[n; 32]);
    let bad = |s: &str| IdError { given: s.to_string(), detail: "d".to_string() };
    assert_eq!(gather(vec![Ok(id(1)), Ok(id(2))]).ok(), Some(vec![id(1), id(2)]));
    assert_eq!(gather(vec![Ok(id(1)), Err(bad("x")), Err(bad("y"))]).err().unwrap().given, "x");
    assert_eq!(write_id_error("w", "\"q\"", "d"), "invalid w id \"q\": d");
    let none = BackendAgent::with_frontends(id(1), Ok(vec![]), "t".to_string());
    assert!(matches!(none, Err(SpawnError::NoFrontend)));
    let some = BackendAgent::with_frontends(id(1), Ok(vec![id(2)]), "t".to_string()).ok().unwrap();
    assert_eq!(some.frontends, vec![id(2)]);
    let failed = BackendAgent::with_frontends(id(1), Err(bad("z")), "t".to_string());
    assert!(matches!(failed, Err(SpawnError::Frontend(e)) if e.given == "z"));
}
