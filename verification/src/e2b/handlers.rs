//! e2b control-plane adapter handlers: each decides which lifecycle calls a request
//! makes, and reshapes what they give.

use crate::e2b::machines::{
    ApiError, CreateMachineRequest, DeleteQuery, MachineInfo, PortMapping, SetTimeoutRequest,
};
use crate::e2b::types::{
    CreateSandboxRequest, E2bError, Lifecycle, RefreshBody, ResumeBody, SandboxCreateResponse,
    SandboxDetail, SandboxListItem, SetTimeoutBody,
};
use crate::http;
use crate::number;
use crate::string_map;
use crate::string_map::StringMap;
use crate::text;
use vstd::prelude::*;
use vstd::string::*;

verus! {

// ---- error mapping ----

/// A failed lifecycle call, answered in the e2b error shape.
#[derive(Debug)]
pub struct E2bErrorResponse(pub ApiError);

impl From<ApiError> for E2bErrorResponse {
    fn from(e: ApiError) -> (r: Self) {
        E2bErrorResponse(e)
    }
}

impl vstd::std_specs::convert::FromSpecImpl<ApiError> for E2bErrorResponse {
    open spec fn obeys_from_spec() -> bool {
        true
    }

    open spec fn from_spec(e: ApiError) -> Self {
        E2bErrorResponse(e)
    }
}

/// The status, the code and the message by which an error is answered.
pub open spec fn error_shape(e: ApiError) -> (u16, Seq<char>, Seq<char>) {
    match e {
        ApiError::Unauthorized(m) => (401, "unauthorized"@, m@),
        ApiError::Forbidden(m) => (403, "forbidden"@, m@),
        ApiError::NotFound(m) => (404, "not_found"@, m@),
        ApiError::Conflict(m) => (409, "conflict"@, m@),
        ApiError::PortConflict(m) => (409, "port_in_use"@, m@),
        ApiError::CloneIdentityRejuvenationFailed(m) => (500, "internal_error"@, m@),
        ApiError::BadRequest(m) => (400, "bad_request"@, m@),
        ApiError::Timeout => (408, "timeout"@, "request timed out"@),
        ApiError::Unavailable(m) => (503, "unavailable"@, m@),
        ApiError::Internal(m) => (500, "internal_error"@, m@),
    }
}

/// The status, the code and the message by which an error is answered.
pub fn map_api_error(e: ApiError) -> (r: (u16, &'static str, String))
    ensures
        (r.0, r.1@, r.2@) == error_shape(e),
{
    match e {
        ApiError::Unauthorized(m) => (401, "unauthorized", m),
        ApiError::Forbidden(m) => (403, "forbidden", m),
        ApiError::NotFound(m) => (404, "not_found", m),
        ApiError::Conflict(m) => (409, "conflict", m),
        ApiError::PortConflict(m) => (409, "port_in_use", m),
        ApiError::CloneIdentityRejuvenationFailed(m) => (500, "internal_error", m),
        ApiError::BadRequest(m) => (400, "bad_request", m),
        ApiError::Timeout => (408, "timeout", "request timed out".to_owned()),
        ApiError::Unavailable(m) => (503, "unavailable", m),
        ApiError::Internal(m) => (500, "internal_error", m),
    }
}

/// Whether `body` is the envelope for a status, a code and a message.
pub open spec fn is_envelope(body: E2bError, shape: (u16, Seq<char>, Seq<char>)) -> bool {
    &&& body.code == shape.0
    &&& body.error_code@ == shape.1
    &&& body.message@ == shape.2
}

/// The e2b error envelope; it is sent with the status that it names.
pub fn e2b_err(status: u16, code: &str, message: String) -> (body: E2bError)
    ensures
        is_envelope(body, (status, code@, message@)),
{
    E2bError { code: status, error_code: code.to_owned(), message }
}

impl E2bErrorResponse {
    /// The error envelope; it is sent with the status that it names.
    pub fn into_response(self) -> (body: E2bError)
        ensures
            is_envelope(body, error_shape(self.0)),
    {
        let (status, code, message) = map_api_error(self.0);
        e2b_err(status, code, message)
    }
}

// ---- auth ----

/// Enforces `X-API-Key` when a control key is configured; otherwise lets every request
/// pass. Returns the refusal of a request that does not pass.
pub fn require_api_key(expected: Option<&str>, provided: Option<&str>) -> (r: Option<E2bError>)
    ensures
        r is None <==> (expected is None || (provided is Some && provided->0@ == expected->0@)),
        r is Some ==> is_envelope(
            r->0,
            (401, "unauthorized"@, "missing or invalid X-API-Key"@),
        ),
{
    match expected {
        Some(key) => {
            let good = match provided {
                Some(p) => text::same_str(p, key),
                None => false,
            };
            if good {
                None
            } else {
                Some(e2b_err(401, "unauthorized", "missing or invalid X-API-Key".to_owned()))
            }
        },
        None => None,
    }
}

// ---- helpers ----

/// The preview domain that a setting names; an empty one names none.
pub open spec fn named_domain(raw: Option<Seq<char>>) -> Option<Seq<char>> {
    match raw {
        Some(s) => if s.len() == 0 {
            None
        } else {
            Some(s)
        },
        None => None,
    }
}

/// The preview domain that a setting names.
pub fn domain(raw: &Option<String>) -> (r: Option<String>)
    ensures
        text::opt(r) == named_domain(text::opt(*raw)),
{
    match raw {
        Some(s) => {
            let c = text::chars_of(s.as_str());
            if c.len() == 0 {
                None
            } else {
                Some(s.as_str().to_owned())
            }
        },
        None => None,
    }
}

/// How chrono writes the instant `secs` seconds after the start of 1970; `None` where
/// its calendar does not reach.
pub uninterp spec fn instant_text(secs: i64) -> Option<Seq<char>>;

/// Calls `chrono::DateTime::from_timestamp` with whole seconds, and writes the instant
/// with `DateTime::to_rfc3339`: what comes out is a function of the seconds.
#[verifier::external_body]
fn write_instant(secs: i64) -> (r: Option<String>)
    ensures
        text::opt(r) == instant_text(secs),
{
    match chrono::DateTime::from_timestamp(secs, 0) {
        Some(d) => Some(d.to_rfc3339()),
        None => None,
    }
}

/// `n` as a signed number of as many bits: the upper half wraps round.
pub open spec fn signed(n: u64) -> i64 {
    if n <= i64::MAX {
        n as i64
    } else {
        (n - 0x1_0000_0000_0000_0000) as i64
    }
}

/// An instant in the form of RFC 3339.
pub fn rfc3339(secs: u64) -> (r: Option<String>)
    ensures
        text::opt(r) == instant_text(signed(secs)),
{
    let s: i64 = if secs <= i64::MAX as u64 {
        secs as i64
    } else {
        -((u64::MAX - secs) as i64) - 1
    };
    write_instant(s)
}

/// e2b state is only running or paused; everything else maps to paused.
pub open spec fn state_text(s: Seq<char>) -> Seq<char> {
    if s == "running"@ {
        "running"@
    } else {
        "paused"@
    }
}

/// e2b state is only running or paused.
pub fn e2b_state(state: &str) -> (r: String)
    ensures
        r@ == state_text(state@),
{
    if text::same_str(state, "running") {
        "running".to_owned()
    } else {
        "paused".to_owned()
    }
}

/// Whether a metadata key is reserved for the adapter.
pub open spec fn reserved(k: Seq<char>) -> bool {
    "e2b."@.is_prefix_of(k)
}

/// Metadata with the reserved keys removed.
pub open spec fn shown_metadata(m: Map<Seq<char>, Seq<char>>) -> Map<Seq<char>, Seq<char>> {
    m.restrict(Set::new(|k: Seq<char>| !reserved(k)))
}

/// Metadata with the reserved `e2b.*` keys removed.
pub fn public_metadata(m: &StringMap) -> (r: StringMap)
    requires
        m.wf(),
    ensures
        r.wf(),
        r@ == shown_metadata(m@),
{
    let r = m.without_prefix("e2b.");
    assert(Set::new(|k: Seq<char>| !"e2b."@.is_prefix_of(k)) =~= Set::new(
        |k: Seq<char>| !reserved(k),
    ));
    r
}

/// The template that a machine's metadata names; empty where it names none.
pub open spec fn named_template(m: Map<Seq<char>, Seq<char>>) -> Seq<char> {
    if m.contains_key("e2b.templateID"@) {
        m["e2b.templateID"@]
    } else {
        seq![]
    }
}

/// The template that a machine was created from.
pub fn template_of(info: &MachineInfo) -> (t: String)
    requires
        info.metadata.wf(),
    ensures
        t@ == named_template(info.metadata@),
{
    match info.metadata.get("e2b.templateID") {
        Some(t) => t.to_owned(),
        None => {
            let t = String::new();
            assert(t@ =~= Seq::<char>::empty());
            t
        },
    }
}

/// The alias of a sandbox: its template, where it has one.
pub open spec fn alias_of(template: Seq<char>) -> Option<Seq<char>> {
    if template.len() == 0 {
        None
    } else {
        Some(template)
    }
}

fn alias_for(template: &str) -> (r: Option<String>)
    ensures
        text::opt(r) == alias_of(template@),
{
    let c = text::chars_of(template);
    if c.len() == 0 {
        None
    } else {
        Some(template.to_owned())
    }
}

/// Whether `r` answers the creation (or resumption) of the machine `m`, where the
/// preview domain is set to `raw`.
pub open spec fn is_create_response(
    r: SandboxCreateResponse,
    m: MachineInfo,
    raw: Option<Seq<char>>,
) -> bool {
    let template = named_template(m.metadata@);
    &&& r.sandbox_id@ == m.name@
    &&& r.template_id@ == template
    &&& r.envd_version@ == "0.0.0-smolvm"@
    &&& r.envd_access_token@.len() == 0
    &&& r.traffic_access_token is None
    &&& text::opt(r.domain) == named_domain(raw)
    &&& text::opt(r.alias) == alias_of(template)
}

/// The answer to the creation (or resumption) of a machine.
pub fn to_create_response(info: &MachineInfo, preview_domain: &Option<String>) -> (r:
    SandboxCreateResponse)
    requires
        info.metadata.wf(),
    ensures
        is_create_response(r, *info, text::opt(*preview_domain)),
{
    let template_id = template_of(info);
    SandboxCreateResponse {
        sandbox_id: info.name.as_str().to_owned(),
        alias: alias_for(template_id.as_str()),
        template_id,
        envd_version: "0.0.0-smolvm".to_owned(),
        envd_access_token: String::new(),
        traffic_access_token: None,
        domain: domain(preview_domain),
    }
}

/// The disk size of a machine, in gigabytes.
pub open spec fn disk_gb(m: MachineInfo) -> u64 {
    match m.storage_gb {
        Some(g) => g,
        None => 0,
    }
}

/// Whether the disk size of a machine can be told in megabytes.
pub open spec fn disk_fits(m: MachineInfo) -> bool {
    disk_gb(m) * 1024 <= u64::MAX
}

/// Whether `it` lists the machine `m`, started at `started`.
pub open spec fn is_item(it: SandboxListItem, m: MachineInfo, started: Option<Seq<char>>) -> bool {
    let template = named_template(m.metadata@);
    &&& it.sandbox_id@ == m.name@
    &&& it.template_id@ == template
    &&& text::opt(it.started_at) == started
    &&& it.end_at is None
    &&& it.cpu_count == m.cpus
    &&& it.memory_mb == m.mem
    &&& it.disk_size_mb == disk_gb(m) * 1024
    &&& it.metadata.wf()
    &&& it.metadata@ == shown_metadata(m.metadata@)
    &&& it.state@ == state_text(m.state@)
    &&& it.envd_version@ == "0.0.0-smolvm"@
    &&& text::opt(it.alias) == alias_of(template)
}

/// The list entry of a machine that started at `started_at`.
pub fn list_item(info: &MachineInfo, started_at: Option<String>) -> (it: SandboxListItem)
    requires
        info.metadata.wf(),
        disk_fits(*info),
    ensures
        is_item(it, *info, text::opt(started_at)),
{
    let template_id = template_of(info);
    let gb: u64 = match info.storage_gb {
        Some(g) => g,
        None => 0,
    };
    SandboxListItem {
        sandbox_id: info.name.as_str().to_owned(),
        alias: alias_for(template_id.as_str()),
        template_id,
        started_at,
        end_at: None,
        cpu_count: info.cpus as u32,
        memory_mb: info.mem,
        disk_size_mb: gb * 1024,
        metadata: public_metadata(&info.metadata),
        state: e2b_state(info.state.as_str()),
        envd_version: "0.0.0-smolvm".to_owned(),
    }
}

/// The list entry of a machine.
pub fn to_list_item(info: &MachineInfo) -> (it: SandboxListItem)
    requires
        info.metadata.wf(),
        disk_fits(*info),
    ensures
        is_item(it, *info, instant_text(signed(info.created_at))),
{
    list_item(info, rfc3339(info.created_at))
}

/// The detail of a machine.
pub fn to_detail(info: &MachineInfo) -> (d: SandboxDetail)
    requires
        info.metadata.wf(),
        disk_fits(*info),
    ensures
        is_item(d.base, *info, instant_text(signed(info.created_at))),
        d.lifecycle.auto_resume,
        d.lifecycle.on_timeout@ == "pause"@,
{
    SandboxDetail {
        base: to_list_item(info),
        lifecycle: Lifecycle { auto_resume: true, on_timeout: "pause".to_owned() },
    }
}

// ---- create ----

/// The image source of a template, as image and artifact path: a known template is its
/// artifact; anything else is an OCI image; no template is `alpine`.
pub open spec fn source_of(template: Option<Seq<char>>, known: Option<Seq<char>>) -> (
    Option<Seq<char>>,
    Option<Seq<char>>,
) {
    match template {
        None => (Some("alpine"@), None),
        Some(t) => match known {
            Some(path) => (None, Some(path)),
            None => (Some(t), None),
        },
    }
}

/// The image source of a template. `known` is the artifact path of the template of that
/// name, where there is one.
pub fn resolve_source(template: &Option<String>, known: Option<String>) -> (r: (
    Option<String>,
    Option<String>,
))
    ensures
        (text::opt(r.0), text::opt(r.1)) == source_of(text::opt(*template), text::opt(known)),
{
    match template {
        None => (Some("alpine".to_owned()), None),
        Some(t) => match known {
            Some(path) => (None, Some(path)),
            None => (Some(t.as_str().to_owned()), None),
        },
    }
}

/// The template that a request is answered with.
pub open spec fn template_echo(req: CreateSandboxRequest) -> Seq<char> {
    match req.template_id {
        Some(t) => t@,
        None => "alpine"@,
    }
}

/// The workload command of a request.
pub open spec fn workload(cmd: Option<Vec<String>>) -> Seq<Seq<char>> {
    if cmd is Some && cmd->0@.len() > 0 {
        text::texts(cmd->0@)
    } else {
        seq!["sleep"@, "infinity"@]
    }
}

/// The port mappings of a request: any free host port for each guest port.
pub open spec fn mapped_ports(ports: Seq<u16>) -> Seq<PortMapping> {
    Seq::new(ports.len(), |i: int| PortMapping { host: 0, guest: ports[i] })
}

/// Whether `out` asks for the machine that the sandbox request `req` wants, where
/// `known` is the artifact path of its template.
pub open spec fn is_machine_request(
    out: CreateMachineRequest,
    req: CreateSandboxRequest,
    known: Option<Seq<char>>,
) -> bool {
    &&& (text::opt(out.image), text::opt(out.from)) == source_of(text::opt(req.template_id), known)
    &&& out.network == (req.allow_internet_access != Some(false))
    &&& out.timeout_secs == req.timeout
    &&& out.on_idle@ == (if req.auto_pause == Some(false) {
        "kill"@
    } else {
        "pause"@
    })
    &&& http::pairs_view(out.env@) == http::pairs_view(req.env_vars.entries@)
    &&& out.metadata.wf()
    &&& out.metadata@ == req.metadata@.insert("e2b.templateID"@, template_echo(req))
    &&& text::texts(out.cmd@) == workload(req.cmd)
    &&& text::opt(out.name) == text::opt(req.name)
    &&& out.cpus == req.cpus
    &&& out.memory_mb == req.memory_mb
    &&& text::opt(out.workdir) == text::opt(req.workdir)
    &&& match req.ports {
        Some(p) => out.ports is Some && out.ports->0@ == mapped_ports(p@),
        None => out.ports is None,
    }
}

fn map_ports(ports: &Vec<u16>) -> (r: Vec<PortMapping>)
    ensures
        r@ == mapped_ports(ports@),
{
    let mut r: Vec<PortMapping> = Vec::new();
    let mut i: usize = 0;
    while i < ports.len()
        invariant
            i <= ports@.len(),
            r@ == mapped_ports(ports@.take(i as int)),
        decreases ports@.len() - i,
    {
        r.push(PortMapping { host: 0, guest: ports[i] });
        i = i + 1;
        assert(r@ =~= mapped_ports(ports@.take(i as int)));
    }
    assert(ports@.take(i as int) =~= ports@);
    r
}

/// The machine that a sandbox request wants.
pub fn machine_request(req: &CreateSandboxRequest, known: Option<String>) -> (out:
    CreateMachineRequest)
    requires
        req.metadata.wf(),
        req.env_vars.wf(),
    ensures
        is_machine_request(out, *req, text::opt(known)),
{
    let echo = match &req.template_id {
        Some(t) => t.as_str().to_owned(),
        None => "alpine".to_owned(),
    };
    let (image, from) = resolve_source(&req.template_id, known);
    let mut metadata = req.metadata.copy();
    metadata.insert("e2b.templateID".to_owned(), echo);
    let env = req.env_vars.copy().entries;
    proof {
        assert(http::pairs_view(env@) =~= http::pairs_view(req.env_vars.entries@));
    }
    let on_idle = match req.auto_pause {
        Some(false) => "kill".to_owned(),
        _ => "pause".to_owned(),
    };
    let network = match req.allow_internet_access {
        Some(b) => b,
        None => true,
    };
    let own = match &req.cmd {
        Some(c) => c.len() > 0,
        None => false,
    };
    let mut cmd: Vec<String> = Vec::new();
    match &req.cmd {
        Some(c) if own => {
            cmd = text::copy_all(c);
        },
        _ => {
            cmd.push("sleep".to_owned());
            cmd.push("infinity".to_owned());
            assert(text::texts(cmd@) =~= seq!["sleep"@, "infinity"@]);
        },
    }
    CreateMachineRequest {
        image,
        from,
        network,
        timeout_secs: req.timeout,
        on_idle,
        env,
        metadata,
        cmd,
        name: text::copy_opt(&req.name),
        cpus: req.cpus,
        memory_mb: req.memory_mb,
        workdir: text::copy_opt(&req.workdir),
        ports: match &req.ports {
            Some(p) => Some(map_ports(p)),
            None => None,
        },
    }
}

/// How far the creation of a sandbox has come.
pub enum CreatePhase {
    /// The request has arrived.
    New(CreateSandboxRequest),
    /// Its template is being looked up.
    Resolving(CreateSandboxRequest),
    /// The machine is being created.
    Creating,
    /// The machine is being started.
    Starting(MachineInfo),
    /// The start failed, and the machine is being deleted.
    RollingBack(ApiError),
    /// The request is answered.
    Done,
}

/// What happens to the creation of a sandbox.
pub enum CreateEvent {
    /// The request is taken up.
    Begin,
    /// The artifact path of the template, where there is such a template.
    Template(Option<String>),
    /// The machine was created, or not.
    Created(Result<MachineInfo, ApiError>),
    /// The machine was started, or not.
    Started(Result<(), ApiError>),
    /// The deletion has ended, in whatever way.
    Deleted,
}

/// What the creation of a sandbox does next.
pub enum CreateAction {
    /// Look this template up.
    LookUp(String),
    /// Create a machine.
    Create(CreateMachineRequest),
    /// Start the machine of this name.
    Start(String),
    /// Delete the machine of this name.
    Delete(String, DeleteQuery),
    /// Answer with this status and body.
    Reply(u16, SandboxCreateResponse),
    /// Answer with this error.
    Fail(E2bErrorResponse),
}

/// Whether `event` can happen in `phase`.
pub open spec fn expects(phase: CreatePhase, event: CreateEvent) -> bool {
    match phase {
        CreatePhase::New(req) => event is Begin && req.metadata.wf() && req.env_vars.wf(),
        CreatePhase::Resolving(req) => event is Template && req.metadata.wf() && req.env_vars.wf(),
        CreatePhase::Creating => event is Created,
        CreatePhase::Starting(info) => event is Started && info.metadata.wf(),
        CreatePhase::RollingBack(_) => event is Deleted,
        CreatePhase::Done => false,
    }
}

/// Whether `action` and the phase `next` follow from `event` in `phase`.
pub open spec fn create_follows(
    phase: CreatePhase,
    event: CreateEvent,
    raw_domain: Option<Seq<char>>,
    next: CreatePhase,
    action: CreateAction,
) -> bool {
    match (phase, event) {
        (CreatePhase::New(req), CreateEvent::Begin) => match req.template_id {
            Some(t) => {
                &&& next == CreatePhase::Resolving(req)
                &&& action is LookUp
                &&& action->LookUp_0@ == t@
            },
            None => {
                &&& next is Creating
                &&& action is Create
                &&& is_machine_request(action->Create_0, req, None)
            },
        },
        (CreatePhase::Resolving(req), CreateEvent::Template(known)) => {
            &&& next is Creating
            &&& action is Create
            &&& is_machine_request(action->Create_0, req, text::opt(known))
        },
        (CreatePhase::Creating, CreateEvent::Created(Ok(info))) => {
            &&& next == CreatePhase::Starting(info)
            &&& action is Start
            &&& action->Start_0@ == info.name@
        },
        (CreatePhase::Creating, CreateEvent::Created(Err(e))) => {
            &&& next is Done
            &&& action == CreateAction::Fail(E2bErrorResponse(e))
        },
        (CreatePhase::Starting(info), CreateEvent::Started(Ok(_))) => {
            &&& next is Done
            &&& action is Reply
            &&& action->Reply_0 == 201
            &&& is_create_response(action->Reply_1, info, raw_domain)
        },
        (CreatePhase::Starting(info), CreateEvent::Started(Err(e))) => {
            &&& next == CreatePhase::RollingBack(e)
            &&& action is Delete
            &&& action->Delete_0@ == info.name@
            &&& action->Delete_1 == DeleteQuery { force: true, cascade: false }
        },
        (CreatePhase::RollingBack(e), CreateEvent::Deleted) => {
            &&& next is Done
            &&& action == CreateAction::Fail(E2bErrorResponse(e))
        },
        _ => false,
    }
}

/// `POST /sandboxes`: creates and starts, and rolls back if the start fails. Takes what
/// has happened, and says what to do next.
pub fn create_sandbox(
    phase: CreatePhase,
    event: CreateEvent,
    preview_domain: &Option<String>,
) -> (r: (CreatePhase, CreateAction))
    requires
        expects(phase, event),
    ensures
        create_follows(phase, event, text::opt(*preview_domain), r.0, r.1),
{
    match phase {
        CreatePhase::New(req) => {
            match &req.template_id {
                Some(t) => {
                    let name = t.as_str().to_owned();
                    (CreatePhase::Resolving(req), CreateAction::LookUp(name))
                },
                None => (CreatePhase::Creating, CreateAction::Create(machine_request(&req, None))),
            }
        },
        CreatePhase::Resolving(req) => match event {
            CreateEvent::Template(known) => (
                CreatePhase::Creating,
                CreateAction::Create(machine_request(&req, known)),
            ),
            _ => vstd::pervasive::unreached(),
        },
        CreatePhase::Creating => match event {
            CreateEvent::Created(Ok(info)) => {
                let name = info.name.as_str().to_owned();
                (CreatePhase::Starting(info), CreateAction::Start(name))
            },
            CreateEvent::Created(Err(e)) => (
                CreatePhase::Done,
                CreateAction::Fail(E2bErrorResponse(e)),
            ),
            _ => vstd::pervasive::unreached(),
        },
        CreatePhase::Starting(info) => match event {
            CreateEvent::Started(Ok(_)) => (
                CreatePhase::Done,
                CreateAction::Reply(201, to_create_response(&info, preview_domain)),
            ),
            CreateEvent::Started(Err(e)) => (
                CreatePhase::RollingBack(e),
                CreateAction::Delete(
                    info.name.as_str().to_owned(),
                    DeleteQuery { force: true, cascade: false },
                ),
            ),
            _ => vstd::pervasive::unreached(),
        },
        CreatePhase::RollingBack(e) => (CreatePhase::Done, CreateAction::Fail(E2bErrorResponse(e))),
        CreatePhase::Done => vstd::pervasive::unreached(),
    }
}

// ---- list ----

/// The query of `GET /v2/sandboxes`.
#[derive(Debug)]
pub struct ListQuery {
    pub metadata: Option<String>,
    pub state: Option<String>,
    pub limit: Option<usize>,
}

/// One page of the list, with the headers that go with it.
pub struct SandboxPage {
    pub items: Vec<SandboxListItem>,
    /// Header names and values.
    pub headers: Vec<(String, String)>,
}

/// Whether a machine carries all that `filter` names.
pub open spec fn carries(
    m: Map<Seq<char>, Seq<char>>,
    filter: Map<Seq<char>, Seq<char>>,
) -> bool {
    forall|k: Seq<char>| #[trigger]
        filter.contains_key(k) ==> m.contains_key(k) && m[k] == filter[k]
}

/// The filter that a query names, where it names one.
pub open spec fn query_filter(q: ListQuery) -> Map<Seq<char>, Seq<char>> {
    filter_of(text::opt(q.metadata))
}

/// Whether a machine is on the list that a query asks for.
pub open spec fn listed(m: MachineInfo, q: ListQuery) -> bool {
    &&& carries(m.metadata@, query_filter(q))
    &&& q.state is Some ==> state_text(m.state@) == q.state->0@
}

/// The machines on the list that a query asks for, in their order.
pub open spec fn all_listed(ms: Seq<MachineInfo>, q: ListQuery) -> Seq<MachineInfo>
    decreases ms.len(),
{
    if ms.len() == 0 {
        seq![]
    } else {
        let before = all_listed(ms.drop_last(), q);
        if listed(ms.last(), q) {
            before.push(ms.last())
        } else {
            before
        }
    }
}

/// How many of the machines are running.
pub open spec fn running_count(ms: Seq<MachineInfo>) -> nat
    decreases ms.len(),
{
    if ms.len() == 0 {
        0
    } else {
        running_count(ms.drop_last()) + (if ms.last().state@ == "running"@ {
            1nat
        } else {
            0nat
        })
    }
}

/// How many of `n` entries a query shows.
pub open spec fn shown_count(n: nat, limit: Option<usize>) -> nat {
    match limit {
        Some(l) => if l < n {
            l as nat
        } else {
            n
        },
        None => n,
    }
}

/// Whether `page` is the page of the machines `ms` that `q` asks for: as many entries
/// as the limit allows, and the count of all that are running, beyond the limit too.
pub open spec fn is_page(page: SandboxPage, ms: Seq<MachineInfo>, q: ListQuery) -> bool {
    let all = all_listed(ms, q);
    &&& page.items@.len() == shown_count(all.len(), q.limit)
    &&& forall|i: int|
        0 <= i < page.items@.len() ==> is_item(
            #[trigger] page.items@[i],
            all[i],
            instant_text(signed(all[i].created_at)),
        )
    &&& http::pairs_view(page.headers@) == seq![
        ("x-total-running"@, number::digits(running_count(all))),
        ("x-next-token"@, seq![]),
    ]
}

/// The page of the machines that a query asks for.
pub fn list_page(ms: &Vec<MachineInfo>, q: &ListQuery) -> (page: SandboxPage)
    requires
        forall|i: int| 0 <= i < ms@.len() ==> (#[trigger] ms@[i]).metadata.wf(),
        forall|i: int|
            0 <= i < ms@.len() && carries((#[trigger] ms@[i]).metadata@, query_filter(*q))
                ==> disk_fits(ms@[i]),
    ensures
        is_page(page, ms@, *q),
{
    let filter = parse_metadata_filter(&q.metadata);
    let mut items: Vec<SandboxListItem> = Vec::new();
    let mut running: usize = 0;
    let ghost all = all_listed(ms@, *q);
    let mut i: usize = 0;
    while i < ms.len()
        invariant
            forall|k: int| 0 <= k < ms@.len() ==> (#[trigger] ms@[k]).metadata.wf(),
            forall|k: int|
                0 <= k < ms@.len() && carries((#[trigger] ms@[k]).metadata@, query_filter(*q))
                    ==> disk_fits(ms@[k]),
            filter.wf(),
            filter@ == query_filter(*q),
            i <= ms@.len(),
            items@.len() == all_listed(ms@.take(i as int), *q).len(),
            items@.len() <= i,
            forall|k: int|
                0 <= k < items@.len() ==> is_item(
                    #[trigger] items@[k],
                    all_listed(ms@.take(i as int), *q)[k],
                    instant_text(signed(all_listed(ms@.take(i as int), *q)[k].created_at)),
                ),
            running == running_count(all_listed(ms@.take(i as int), *q)),
            running <= items@.len(),
        decreases ms@.len() - i,
    {
        let m = &ms[i];
        let ghost was = all_listed(ms@.take(i as int), *q);
        proof {
            assert(ms@.take(i + 1).drop_last() =~= ms@.take(i as int));
            assert(ms@.take(i + 1).last() == ms@[i as int]);
            assert(was.push(*m).drop_last() =~= was);
        }
        if metadata_matches(&m.metadata, &filter) {
            let it = to_list_item(m);
            let wanted = match &q.state {
                Some(s) => text::same_str(it.state.as_str(), s.as_str()),
                None => true,
            };
            if wanted {
                let runs = text::same_str(it.state.as_str(), "running");
                proof {
                    reveal_strlit("running");
                    reveal_strlit("paused");
                    assert("running"@[0] != "paused"@[0]);
                }
                if runs {
                    running = running + 1;
                }
                items.push(it);
            }
        }
        i = i + 1;
    }
    proof {
        assert(ms@.take(i as int) =~= ms@);
    }
    match q.limit {
        Some(limit) => {
            if limit < items.len() {
                items.truncate(limit);
            }
        },
        None => {},
    }
    let mut headers: Vec<(String, String)> = Vec::new();
    headers.push(("x-total-running".to_owned(), number::decimal(running as u64)));
    headers.push(("x-next-token".to_owned(), String::new()));
    proof {
        assert(headers@[1].1@ =~= Seq::<char>::empty());
        assert(http::pairs_view(headers@) =~= seq![
            ("x-total-running"@, number::digits(running_count(all))),
            ("x-next-token"@, seq![]),
        ]);
    }
    SandboxPage { items, headers }
}

/// `GET /v2/sandboxes`: the page of what the lifecycle lists, or its error.
pub fn list_sandboxes(machines: Result<Vec<MachineInfo>, ApiError>, q: &ListQuery) -> (r: Result<
    SandboxPage,
    E2bErrorResponse,
>)
    requires
        machines is Ok ==> forall|i: int|
            0 <= i < machines->Ok_0@.len() ==> (#[trigger] machines->Ok_0@[i]).metadata.wf(),
        machines is Ok ==> forall|i: int|
            0 <= i < machines->Ok_0@.len() && carries(
                (#[trigger] machines->Ok_0@[i]).metadata@,
                query_filter(*q),
            ) ==> disk_fits(machines->Ok_0@[i]),
    ensures
        match machines {
            Ok(ms) => r is Ok && is_page(r->Ok_0, ms@, *q),
            Err(e) => r == Err::<SandboxPage, E2bErrorResponse>(E2bErrorResponse(e)),
        },
{
    match machines {
        Ok(ms) => Ok(list_page(&ms, q)),
        Err(e) => Err(E2bErrorResponse(e)),
    }
}

// ---- the other calls ----

/// `GET /sandboxes/{id}`: the detail of the machine, or the lifecycle's error.
pub fn get_sandbox(machine: Result<MachineInfo, ApiError>) -> (r: Result<
    SandboxDetail,
    E2bErrorResponse,
>)
    requires
        machine is Ok ==> machine->Ok_0.metadata.wf() && disk_fits(machine->Ok_0),
    ensures
        match machine {
            Ok(info) => {
                &&& r is Ok
                &&& is_item(r->Ok_0.base, info, instant_text(signed(info.created_at)))
                &&& r->Ok_0.lifecycle.auto_resume
                &&& r->Ok_0.lifecycle.on_timeout@ == "pause"@
            },
            Err(e) => r == Err::<SandboxDetail, E2bErrorResponse>(E2bErrorResponse(e)),
        },
{
    match machine {
        Ok(info) => Ok(to_detail(&info)),
        Err(e) => Err(E2bErrorResponse(e)),
    }
}

/// The answer to a call that gives nothing back: 204, or the lifecycle's error.
pub open spec fn no_content(done: Result<(), ApiError>) -> Result<u16, E2bErrorResponse> {
    match done {
        Ok(_) => Ok(204),
        Err(e) => Err(E2bErrorResponse(e)),
    }
}

/// `POST /sandboxes/{id}/pause`: 204 once the machine is paused.
pub fn pause_sandbox(paused: Result<(), ApiError>) -> (r: Result<u16, E2bErrorResponse>)
    ensures
        r == no_content(paused),
{
    match paused {
        Ok(_) => Ok(204),
        Err(e) => Err(E2bErrorResponse(e)),
    }
}

/// What the resumption of a sandbox does next.
pub enum ResumeAction {
    /// Set the idle timeout, then go on with this answer.
    SetTimeout(SetTimeoutRequest, SandboxCreateResponse),
    /// Answer with this status and body.
    Reply(u16, SandboxCreateResponse),
    /// Answer with this error.
    Fail(E2bErrorResponse),
}

/// `POST /sandboxes/{id}/resume`: once the machine is resumed, sets the timeout that
/// the body names, if any, and answers as for a creation.
pub fn resume_sandbox(
    resumed: Result<MachineInfo, ApiError>,
    body: Option<ResumeBody>,
    preview_domain: &Option<String>,
) -> (r: ResumeAction)
    requires
        resumed is Ok ==> resumed->Ok_0.metadata.wf(),
    ensures
        match resumed {
            Err(e) => r == ResumeAction::Fail(E2bErrorResponse(e)),
            Ok(info) => if body is Some && body->0.timeout is Some {
                &&& r is SetTimeout
                &&& r->SetTimeout_0.timeout_secs == body->0.timeout->0
                &&& is_create_response(r->SetTimeout_1, info, text::opt(*preview_domain))
            } else {
                &&& r is Reply
                &&& r->Reply_0 == 201
                &&& is_create_response(r->Reply_1, info, text::opt(*preview_domain))
            },
        },
{
    match resumed {
        Err(e) => ResumeAction::Fail(E2bErrorResponse(e)),
        Ok(info) => {
            let reply = to_create_response(&info, preview_domain);
            match body {
                Some(ResumeBody { timeout: Some(secs) }) => ResumeAction::SetTimeout(
                    SetTimeoutRequest { timeout_secs: secs },
                    reply,
                ),
                _ => ResumeAction::Reply(201, reply),
            }
        },
    }
}

/// The end of a resumption, once the timeout is set.
pub fn resumed_with_timeout(set: Result<(), ApiError>, reply: SandboxCreateResponse) -> (r:
    ResumeAction)
    ensures
        r == (match set {
            Ok(_) => ResumeAction::Reply(201, reply),
            Err(e) => ResumeAction::Fail(E2bErrorResponse(e)),
        }),
{
    match set {
        Ok(_) => ResumeAction::Reply(201, reply),
        Err(e) => ResumeAction::Fail(E2bErrorResponse(e)),
    }
}

/// How a sandbox is deleted: by force, and alone.
pub fn delete_query() -> (q: DeleteQuery)
    ensures
        q == (DeleteQuery { force: true, cascade: false }),
{
    DeleteQuery { force: true, cascade: false }
}

/// `DELETE /sandboxes/{id}`: 204 once the machine is deleted.
pub fn delete_sandbox(deleted: Result<(), ApiError>) -> (r: Result<u16, E2bErrorResponse>)
    ensures
        r == no_content(deleted),
{
    match deleted {
        Ok(_) => Ok(204),
        Err(e) => Err(E2bErrorResponse(e)),
    }
}

/// The timeout that `POST /sandboxes/{id}/timeout` asks for.
pub fn timeout_request(body: SetTimeoutBody) -> (q: SetTimeoutRequest)
    ensures
        q.timeout_secs == body.timeout,
{
    SetTimeoutRequest { timeout_secs: body.timeout }
}

/// `POST /sandboxes/{id}/timeout`: 204 once the timeout is set.
pub fn set_timeout(set: Result<(), ApiError>) -> (r: Result<u16, E2bErrorResponse>)
    ensures
        r == no_content(set),
{
    match set {
        Ok(_) => Ok(204),
        Err(e) => Err(E2bErrorResponse(e)),
    }
}

/// What a refresh does.
#[derive(Clone, Copy, PartialEq, Eq, Structural, Debug)]
pub enum RefreshAction {
    /// Set the idle timeout, and answer with its error where that fails.
    SetTimeout(SetTimeoutRequest),
    /// Note that the machine is in use.
    Touch,
}

/// `POST /sandboxes/{id}/refreshes`: sets the timeout that the body names, or touches
/// the machine where it names none. The answer is 204.
pub fn refresh_sandbox(body: Option<RefreshBody>) -> (r: RefreshAction)
    ensures
        r == (if body is Some && body->0.duration is Some {
            RefreshAction::SetTimeout(SetTimeoutRequest { timeout_secs: body->0.duration->0 })
        } else {
            RefreshAction::Touch
        }),
{
    match body {
        Some(RefreshBody { duration: Some(secs) }) => RefreshAction::SetTimeout(
            SetTimeoutRequest { timeout_secs: secs },
        ),
        _ => RefreshAction::Touch,
    }
}

// ---- metadata filter ----

/// `m` with the pair that `piece` writes, `key=value`; a piece without `=` writes none.
pub open spec fn with_pair(m: Map<Seq<char>, Seq<char>>, piece: Seq<char>) -> Map<
    Seq<char>,
    Seq<char>,
> {
    match text::split_once(piece, '=') {
        Some((k, v)) => m.insert(k, v),
        None => m,
    }
}

/// `m` with the pairs that `s` writes, joined by `&`; a later pair replaces an earlier
/// one of the same key.
pub open spec fn with_pairs(m: Map<Seq<char>, Seq<char>>, s: Seq<char>) -> Map<
    Seq<char>,
    Seq<char>,
>
    decreases s.len(),
{
    match text::split_once(s, '&') {
        Some((piece, rest)) => if rest.len() < s.len() {
            with_pairs(with_pair(m, piece), rest)
        } else {
            m
        },
        None => with_pair(m, s),
    }
}

/// The filter that a query parameter writes; none writes the empty one.
pub open spec fn filter_of(raw: Option<Seq<char>>) -> Map<Seq<char>, Seq<char>> {
    match raw {
        Some(s) => with_pairs(Map::empty(), s),
        None => Map::empty(),
    }
}

/// The filter that a `key=value&key2=value2` string writes.
pub fn parse_metadata_filter(raw: &Option<String>) -> (out: StringMap)
    ensures
        out.wf(),
        out@ == filter_of(text::opt(*raw)),
{
    let mut out = StringMap::new();
    match raw {
        Some(s) => {
            let c = text::chars_of(s.as_str());
            let mut rest: &[char] = c.as_slice();
            let mut more: bool = true;
            while more
                invariant
                    out.wf(),
                    more ==> with_pairs(out@, rest@) == filter_of(text::opt(*raw)),
                    !more ==> out@ == filter_of(text::opt(*raw)),
                decreases
                        rest@.len() + (if more {
                            1int
                        } else {
                            0int
                        }),
            {
                let ghost s0 = rest@;
                let piece: &[char] = match text::cut(rest, '&') {
                    Some((a, b)) => {
                        proof {
                            text::lemma_index_of(s0, '&');
                        }
                        rest = b;
                        a
                    },
                    None => {
                        more = false;
                        rest
                    },
                };
                match text::cut(piece, '=') {
                    Some((k, v)) => {
                        out.insert(text::string_of(k), text::string_of(v));
                    },
                    None => {},
                }
            }
        },
        None => {},
    }
    out
}

/// Whether metadata carries all that `filter` names.
pub fn metadata_matches(m: &StringMap, filter: &StringMap) -> (r: bool)
    requires
        m.wf(),
        filter.wf(),
    ensures
        r == carries(m@, filter@),
{
    let ghost s = filter.entries@;
    let mut i: usize = 0;
    while i < filter.entries.len()
        invariant
            m.wf(),
            filter.wf(),
            s == filter.entries@,
            i <= s.len(),
            forall|j: int|
                0 <= j < i ==> m@.contains_key((#[trigger] s[j]).0@) && m@[s[j].0@] == s[j].1@,
        decreases s.len() - i,
    {
        let e = &filter.entries[i];
        let good = match m.get(e.0.as_str()) {
            Some(v) => text::same_str(v, e.1.as_str()),
            None => false,
        };
        if !good {
            proof {
                string_map::lemma_bound(s, i as int);
                assert(filter@.contains_key(s[i as int].0@));
            }
            return false;
        }
        i = i + 1;
    }
    proof {
        assert forall|k: Seq<char>| #[trigger] filter@.contains_key(k) implies m@.contains_key(k)
            && m@[k] == filter@[k] by {
            let j = string_map::lemma_bound_key(s, k);
            assert(s[j].0@ == k);
        }
    }
    true
}

// ---- laws ----

/// A client gets back exactly the metadata it gave, without reserved keys: what the
/// adapter adds for itself never shows.
pub proof fn law_clients_see_their_own_metadata(
    out: CreateMachineRequest,
    req: CreateSandboxRequest,
    known: Option<Seq<char>>,
)
    requires
        is_machine_request(out, req, known),
    ensures
        shown_metadata(out.metadata@) == shown_metadata(req.metadata@),
        forall|k: Seq<char>| #[trigger]
            shown_metadata(out.metadata@).contains_key(k) ==> !reserved(k),
{
    reveal_strlit("e2b.");
    reveal_strlit("e2b.templateID");
    assert(reserved("e2b.templateID"@));
    assert(shown_metadata(out.metadata@) =~= shown_metadata(req.metadata@));
}

/// A sandbox answers for the template it was asked for: a machine that keeps the
/// metadata of its request is told with the request's template, `alpine` by default.
pub proof fn law_creation_echoes_the_template(
    out: CreateMachineRequest,
    req: CreateSandboxRequest,
    known: Option<Seq<char>>,
    info: MachineInfo,
    resp: SandboxCreateResponse,
    raw: Option<Seq<char>>,
)
    requires
        is_machine_request(out, req, known),
        info.metadata@ == out.metadata@,
        is_create_response(resp, info, raw),
    ensures
        resp.template_id@ == template_echo(req),
{
}

/// A machine is deleted only where its own start failed, and then the start's error is
/// what the client gets, however the deletion ends.
pub proof fn law_failed_start_rolls_back(
    phase: CreatePhase,
    event: CreateEvent,
    raw: Option<Seq<char>>,
    next: CreatePhase,
    action: CreateAction,
    last: CreatePhase,
    answer: CreateAction,
)
    requires
        create_follows(phase, event, raw, next, action),
        action is Delete,
        create_follows(next, CreateEvent::Deleted, raw, last, answer),
    ensures
        phase is Starting,
        event is Started,
        event->Started_0 is Err,
        action->Delete_0@ == phase->Starting_0.name@,
        answer == CreateAction::Fail(E2bErrorResponse(event->Started_0->Err_0)),
        last is Done,
{
}

/// A creation is answered with success only once the machine has started.
pub proof fn law_success_needs_a_started_machine(
    phase: CreatePhase,
    event: CreateEvent,
    raw: Option<Seq<char>>,
    next: CreatePhase,
    action: CreateAction,
)
    requires
        create_follows(phase, event, raw, next, action),
        action is Reply,
    ensures
        phase is Starting,
        event is Started,
        event->Started_0 is Ok,
        action->Reply_0 == 201,
        action->Reply_1.sandbox_id@ == phase->Starting_0.name@,
{
}

/// Whether two entries show the same.
pub open spec fn same_item(a: SandboxListItem, b: SandboxListItem) -> bool {
    &&& a.sandbox_id@ == b.sandbox_id@
    &&& a.template_id@ == b.template_id@
    &&& text::opt(a.started_at) == text::opt(b.started_at)
    &&& text::opt(a.end_at) == text::opt(b.end_at)
    &&& a.cpu_count == b.cpu_count
    &&& a.memory_mb == b.memory_mb
    &&& a.disk_size_mb == b.disk_size_mb
    &&& a.metadata@ == b.metadata@
    &&& a.state@ == b.state@
    &&& a.envd_version@ == b.envd_version@
    &&& text::opt(a.alias) == text::opt(b.alias)
}

/// The limit cuts the page and nothing else: the first entries stay as they are, and the
/// count of running machines is that of the whole list.
pub proof fn law_limit_only_cuts(
    cut: SandboxPage,
    whole: SandboxPage,
    ms: Seq<MachineInfo>,
    q: ListQuery,
    unlimited: ListQuery,
)
    requires
        unlimited.metadata == q.metadata,
        unlimited.state == q.state,
        unlimited.limit is None,
        is_page(cut, ms, q),
        is_page(whole, ms, unlimited),
    ensures
        cut.items@.len() == shown_count(whole.items@.len(), q.limit),
        http::pairs_view(cut.headers@) == http::pairs_view(whole.headers@),
        forall|i: int|
            0 <= i < cut.items@.len() ==> same_item(#[trigger] cut.items@[i], whole.items@[i]),
{
    lemma_same_list(ms, q, unlimited);
}

proof fn lemma_same_list(ms: Seq<MachineInfo>, a: ListQuery, b: ListQuery)
    requires
        a.metadata == b.metadata,
        a.state == b.state,
    ensures
        all_listed(ms, a) == all_listed(ms, b),
    decreases ms.len(),
{
    if ms.len() > 0 {
        lemma_same_list(ms.drop_last(), a, b);
    }
}

/// A query without a filter lists every machine.
pub proof fn law_no_filter_lists_all(ms: Seq<MachineInfo>, q: ListQuery)
    requires
        q.metadata is None,
        q.state is None,
    ensures
        all_listed(ms, q) == ms,
    decreases ms.len(),
{
    if ms.len() > 0 {
        law_no_filter_lists_all(ms.drop_last(), q);
        assert(ms.drop_last().push(ms.last()) =~= ms);
    } else {
        assert(ms =~= Seq::<MachineInfo>::empty());
    }
}

}
