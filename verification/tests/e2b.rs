//! The sandbox surface.

use smolvm_cluster::e2b::handlers::{
    create_sandbox, delete_query, delete_sandbox, domain, e2b_state, get_sandbox, list_sandboxes,
    metadata_matches, parse_metadata_filter, pause_sandbox, public_metadata, refresh_sandbox,
    require_api_key, resume_sandbox, resumed_with_timeout, rfc3339, set_timeout, timeout_request,
    to_create_response, to_detail, to_list_item, CreateAction, CreateEvent, CreatePhase,
    E2bErrorResponse, ListQuery, RefreshAction, ResumeAction,
};
use smolvm_cluster::e2b::machines::{
    ApiError, CreateMachineRequest, DeleteQuery, MachineInfo, PortMapping, SetTimeoutRequest,
};
use smolvm_cluster::e2b::types::{
    default_timeout, CreateSandboxRequest, RefreshBody, ResumeBody, SetTimeoutBody,
};
use smolvm_cluster::string_map::StringMap;

fn map(pairs: &[(&str, &str)]) -> StringMap {
    let mut m = StringMap::new();
    for (k, v) in pairs {
        m.insert(k.to_string(), v.to_string());
    }
    m
}

fn pairs(m: &StringMap) -> Vec<(String, String)> {
    m.entries.iter().map(|(k, v)| (k.clone(), v.clone())).collect()
}

fn owned(p: &[(&str, &str)]) -> Vec<(String, String)> {
    p.iter().map(|(k, v)| (k.to_string(), v.to_string())).collect()
}

fn machine(name: &str, state: &str, meta: &[(&str, &str)]) -> MachineInfo {
    MachineInfo {
        name: name.to_string(),
        state: state.to_string(),
        cpus: 2,
        mem: 512,
        storage_gb: Some(3),
        created_at: 86_400,
        metadata: map(meta),
    }
}

fn request(template: Option<&str>) -> CreateSandboxRequest {
    CreateSandboxRequest {
        template_id: template.map(|t| t.to_string()),
        timeout: default_timeout(),
        metadata: map(&[("owner", "me")]),
        env_vars: map(&[("B", "2"), ("A", "1")]),
        auto_pause: None,
        allow_internet_access: None,
        name: None,
        cpus: None,
        memory_mb: None,
        ports: None,
        cmd: None,
        workdir: None,
    }
}

fn created(phase: CreatePhase, event: CreateEvent) -> (CreatePhase, CreateMachineRequest) {
    match create_sandbox(phase, event, &None) {
        (p, CreateAction::Create(r)) => (p, r),
        _ => panic!("a creation"),
    }
}

#[test]
fn maps_stand_in_the_order_of_their_keys() {
    let m = map(&[("b", "1"), ("a", "2"), ("é", "3"), ("b", "4"), ("", "5")]);
    assert_eq!(pairs(&m), owned(&[("", "5"), ("a", "2"), ("b", "4"), ("é", "3")]));
    assert_eq!(m.get("b"), Some("4"));
    assert_eq!(m.get("c"), None);
}

#[test]
fn errors_take_the_e2b_shape() {
    let cases: Vec<(ApiError, u16, &str, &str)> = vec![
        (ApiError::Unauthorized("m".to_string()), 401, "unauthorized", "m"),
        (ApiError::Forbidden("m".to_string()), 403, "forbidden", "m"),
        (ApiError::NotFound("m".to_string()), 404, "not_found", "m"),
        (ApiError::Conflict("m".to_string()), 409, "conflict", "m"),
        (ApiError::PortConflict("m".to_string()), 409, "port_in_use", "m"),
        (ApiError::CloneIdentityRejuvenationFailed("m".to_string()), 500, "internal_error", "m"),
        (ApiError::BadRequest("m".to_string()), 400, "bad_request", "m"),
        (ApiError::Timeout, 408, "timeout", "request timed out"),
        (ApiError::Unavailable("m".to_string()), 503, "unavailable", "m"),
        (ApiError::Internal("m".to_string()), 500, "internal_error", "m"),
    ];
    for (e, status, code, message) in cases {
        let body = E2bErrorResponse::from(e).into_response();
        assert_eq!(body.code, status);
        assert_eq!(body.error_code, code);
        assert_eq!(body.message, message);
    }
}

#[test]
fn a_control_key_is_enforced_when_set() {
    assert!(require_api_key(None, None).is_none());
    assert!(require_api_key(None, Some("any")).is_none());
    assert!(require_api_key(Some("k"), Some("k")).is_none());
    let refusal = require_api_key(Some("k"), Some("x")).unwrap();
    assert_eq!(refusal.code, 401);
    assert_eq!(refusal.error_code, "unauthorized");
    assert_eq!(refusal.message, "missing or invalid X-API-Key");
    assert!(require_api_key(Some("k"), None).is_some());
}

#[test]
fn instants_are_written_as_rfc3339() {
    assert_eq!(rfc3339(0).as_deref(), Some("1970-01-01T00:00:00+00:00"));
    assert_eq!(rfc3339(1_700_000_000).as_deref(), Some("2023-11-14T22:13:20+00:00"));
    assert_eq!(rfc3339(u64::MAX).as_deref(), Some("1969-12-31T23:59:59+00:00"));
    assert_eq!(rfc3339(i64::MAX as u64), None);
}

#[test]
fn states_and_domains_are_normalised() {
    assert_eq!(e2b_state("running"), "running");
    assert_eq!(e2b_state("stopped"), "paused");
    assert_eq!(domain(&Some(String::new())), None);
    assert_eq!(domain(&Some("d".to_string())), Some("d".to_string()));
    assert_eq!(domain(&None), None);
}

#[test]
fn reserved_metadata_is_hidden() {
    let m = map(&[("e2b.templateID", "t"), ("e2b", "x"), ("a", "1"), ("e2b.", "y")]);
    assert_eq!(pairs(&public_metadata(&m)), owned(&[("a", "1"), ("e2b", "x")]));
}

#[test]
fn machines_are_listed_and_detailed() {
    let m = machine("vm-1", "running", &[("e2b.templateID", "python"), ("a", "1")]);
    let it = to_list_item(&m);
    assert_eq!(it.sandbox_id, "vm-1");
    assert_eq!(it.template_id, "python");
    assert_eq!(it.alias.as_deref(), Some("python"));
    assert_eq!(it.started_at.as_deref(), Some("1970-01-02T00:00:00+00:00"));
    assert_eq!(it.end_at, None);
    assert_eq!((it.cpu_count, it.memory_mb, it.disk_size_mb), (2, 512, 3072));
    assert_eq!(pairs(&it.metadata), owned(&[("a", "1")]));
    assert_eq!(it.state, "running");
    assert_eq!(it.envd_version, "0.0.0-smolvm");
    let d = to_detail(&m);
    assert!(d.lifecycle.auto_resume);
    assert_eq!(d.lifecycle.on_timeout, "pause");
    let r = to_create_response(&machine("vm-2", "paused", &[]), &Some("d".to_string()));
    assert_eq!(r.sandbox_id, "vm-2");
    assert_eq!(r.template_id, "");
    assert_eq!(r.alias, None);
    assert_eq!(r.domain.as_deref(), Some("d"));
    assert_eq!(r.envd_access_token, "");
    assert_eq!(r.traffic_access_token, None);
}

#[test]
fn a_sandbox_is_created_and_started() {
    let (phase, action) = create_sandbox(
        CreatePhase::New(request(Some("python"))),
        CreateEvent::Begin,
        &None,
    );
    assert!(matches!(action, CreateAction::LookUp(t) if t == "python"));
    let (phase, req) = created(phase, CreateEvent::Template(Some("/t/python".to_string())));
    assert_eq!(req.image, None);
    assert_eq!(req.from.as_deref(), Some("/t/python"));
    assert!(req.network);
    assert_eq!(req.timeout_secs, 15);
    assert_eq!(req.on_idle, "pause");
    assert_eq!(req.env, owned(&[("A", "1"), ("B", "2")]));
    assert_eq!(pairs(&req.metadata), owned(&[("e2b.templateID", "python"), ("owner", "me")]));
    assert_eq!(req.cmd, ["sleep", "infinity"]);
    let info = MachineInfo { metadata: req.metadata, ..machine("vm-1", "created", &[]) };
    let (phase, action) = create_sandbox(phase, CreateEvent::Created(Ok(info)), &None);
    assert!(matches!(action, CreateAction::Start(n) if n == "vm-1"));
    match create_sandbox(phase, CreateEvent::Started(Ok(())), &None) {
        (CreatePhase::Done, CreateAction::Reply(201, r)) => {
            assert_eq!(r.sandbox_id, "vm-1");
            assert_eq!(r.template_id, "python");
        }
        _ => panic!("an answer"),
    }
}

#[test]
fn a_failed_start_is_rolled_back() {
    let info = machine("vm-1", "created", &[]);
    let failed = CreateEvent::Started(Err(ApiError::Internal("boom".to_string())));
    let (phase, action) = create_sandbox(CreatePhase::Starting(info), failed, &None);
    match action {
        CreateAction::Delete(n, q) => {
            assert_eq!(n, "vm-1");
            assert_eq!(q, DeleteQuery { force: true, cascade: false });
        }
        _ => panic!("a deletion"),
    }
    match create_sandbox(phase, CreateEvent::Deleted, &None) {
        (CreatePhase::Done, CreateAction::Fail(e)) => {
            assert_eq!(e.into_response().message, "boom");
        }
        _ => panic!("the error of the start"),
    }
}

#[test]
fn a_failed_creation_is_answered() {
    let failed = CreateEvent::Created(Err(ApiError::Conflict("taken".to_string())));
    match create_sandbox(CreatePhase::Creating, failed, &None) {
        (CreatePhase::Done, CreateAction::Fail(e)) => assert_eq!(e.into_response().code, 409),
        _ => panic!("an error"),
    }
}

#[test]
fn requests_choose_their_source_and_options() {
    let (_, req) = created(CreatePhase::New(request(None)), CreateEvent::Begin);
    assert_eq!(req.image.as_deref(), Some("alpine"));
    assert_eq!(req.from, None);
    assert_eq!(req.metadata.get("e2b.templateID"), Some("alpine"));
    assert_eq!(req.ports, None);
    let mut r = request(Some("ubuntu"));
    r.auto_pause = Some(false);
    r.allow_internet_access = Some(false);
    r.name = Some("mine".to_string());
    r.cpus = Some(4);
    r.memory_mb = Some(2048);
    r.ports = Some(vec![3000, 80]);
    r.cmd = Some(vec!["run".to_string()]);
    r.workdir = Some("/w".to_string());
    let (_, req) = created(CreatePhase::Resolving(r), CreateEvent::Template(None));
    assert_eq!(req.image.as_deref(), Some("ubuntu"));
    assert_eq!(req.on_idle, "kill");
    assert!(!req.network);
    assert_eq!(req.name.as_deref(), Some("mine"));
    assert_eq!((req.cpus, req.memory_mb), (Some(4), Some(2048)));
    assert_eq!(
        req.ports,
        Some(vec![PortMapping { host: 0, guest: 3000 }, PortMapping { host: 0, guest: 80 }])
    );
    assert_eq!(req.cmd, ["run"]);
    assert_eq!(req.workdir.as_deref(), Some("/w"));
    let mut empty = request(None);
    empty.cmd = Some(vec![]);
    let (_, req) = created(CreatePhase::New(empty), CreateEvent::Begin);
    assert_eq!(req.cmd, ["sleep", "infinity"]);
}

fn query(metadata: Option<&str>, state: Option<&str>, limit: Option<usize>) -> ListQuery {
    ListQuery {
        metadata: metadata.map(|s| s.to_string()),
        state: state.map(|s| s.to_string()),
        limit,
    }
}

fn fleet() -> Vec<MachineInfo> {
    vec![
        machine("a", "running", &[("team", "x")]),
        machine("b", "paused", &[("team", "x")]),
        machine("c", "running", &[("team", "y")]),
        machine("d", "running", &[("team", "x"), ("env", "p")]),
    ]
}

fn names(q: ListQuery) -> (Vec<String>, Vec<(String, String)>) {
    let page = list_sandboxes(Ok(fleet()), &q).ok().unwrap();
    (page.items.iter().map(|i| i.sandbox_id.clone()).collect(), page.headers)
}

#[test]
fn lists_are_filtered_and_cut() {
    assert_eq!(names(query(None, None, None)).0, ["a", "b", "c", "d"]);
    assert_eq!(names(query(Some("team=x"), None, None)).0, ["a", "b", "d"]);
    assert_eq!(names(query(Some("team=x&env=p"), None, None)).0, ["d"]);
    assert_eq!(names(query(None, Some("paused"), None)).0, ["b"]);
    assert_eq!(names(query(None, Some("stopped"), None)).0, Vec::<String>::new());
    let (got, headers) = names(query(None, None, Some(1)));
    assert_eq!(got, ["a"]);
    // the limit does not change the count
    assert_eq!(headers, owned(&[("x-total-running", "3"), ("x-next-token", "")]));
    let whole = list_sandboxes(Ok(fleet()), &query(None, None, None)).ok().unwrap();
    let cut = list_sandboxes(Ok(fleet()), &query(None, None, Some(2))).ok().unwrap();
    assert_eq!((cut.items.len(), cut.headers), (2, whole.headers));
    for (a, b) in cut.items.iter().zip(&whole.items) {
        assert_eq!(a.sandbox_id, b.sandbox_id);
        assert_eq!(a.template_id, b.template_id);
        assert_eq!(a.started_at, b.started_at);
        assert_eq!(a.end_at, b.end_at);
        assert_eq!((a.cpu_count, a.memory_mb), (b.cpu_count, b.memory_mb));
        assert_eq!(a.disk_size_mb, b.disk_size_mb);
        assert_eq!(a.state, b.state);
        assert_eq!(a.alias, b.alias);
    }
    let e = list_sandboxes(Err(ApiError::Timeout), &query(None, None, None)).err().unwrap();
    assert_eq!(e.into_response().code, 408);
}

#[test]
fn filters_parse() {
    let m = parse_metadata_filter(&Some("a=1&b=x=y&junk&&a=2&=e".to_string()));
    assert_eq!(pairs(&m), owned(&[("", "e"), ("a", "2"), ("b", "x=y")]));
    assert_eq!(pairs(&parse_metadata_filter(&Some(String::new()))), vec![]);
    assert_eq!(pairs(&parse_metadata_filter(&None)), vec![]);
    assert!(metadata_matches(&map(&[("a", "2")]), &map(&[])));
    assert!(!metadata_matches(&map(&[("a", "2")]), &m));
}

#[test]
fn the_other_calls_answer() {
    let d = get_sandbox(Ok(machine("a", "running", &[]))).ok().unwrap();
    assert_eq!(d.base.sandbox_id, "a");
    let e = get_sandbox(Err(ApiError::NotFound("no".to_string()))).err().unwrap();
    assert_eq!(e.into_response().code, 404);
    assert_eq!(pause_sandbox(Ok(())).ok(), Some(204));
    assert_eq!(pause_sandbox(Err(ApiError::Timeout)).err().unwrap().into_response().code, 408);
    assert_eq!(delete_query(), DeleteQuery { force: true, cascade: false });
    assert_eq!(delete_sandbox(Ok(())).ok(), Some(204));
    assert!(delete_sandbox(Err(ApiError::Timeout)).is_err());
    assert_eq!(timeout_request(SetTimeoutBody { timeout: 9 }), SetTimeoutRequest { timeout_secs: 9 });
    assert_eq!(set_timeout(Ok(())).ok(), Some(204));
    assert!(set_timeout(Err(ApiError::Timeout)).is_err());
    assert_eq!(
        refresh_sandbox(Some(RefreshBody { duration: Some(5) })),
        RefreshAction::SetTimeout(SetTimeoutRequest { timeout_secs: 5 })
    );
    assert_eq!(refresh_sandbox(Some(RefreshBody { duration: None })), RefreshAction::Touch);
    assert_eq!(refresh_sandbox(None), RefreshAction::Touch);
}

#[test]
fn resuming_sets_a_timeout_that_is_named() {
    let info = || Ok(machine("a", "running", &[]));
    match resume_sandbox(info(), Some(ResumeBody { timeout: Some(7) }), &None) {
        ResumeAction::SetTimeout(q, r) => {
            assert_eq!(q.timeout_secs, 7);
            assert_eq!(r.sandbox_id, "a");
            assert!(matches!(resumed_with_timeout(Ok(()), r), ResumeAction::Reply(201, _)));
        }
        _ => panic!("a timeout"),
    }
    assert!(matches!(resume_sandbox(info(), None, &None), ResumeAction::Reply(201, _)));
    let no_timeout = Some(ResumeBody { timeout: None });
    match resume_sandbox(info(), no_timeout, &None) {
        ResumeAction::Reply(201, r) => {
            let e = Err(ApiError::Timeout);
            assert!(matches!(resumed_with_timeout(e, r), ResumeAction::Fail(_)));
        }
        _ => panic!("an answer"),
    }
    let e = Err(ApiError::Conflict("not paused".to_string()));
    assert!(matches!(resume_sandbox(e, None, &None), ResumeAction::Fail(_)));
}
