//! What the adapter owes its clients, call by call: each law speaks of the arguments and
//! the result of a call, field by field.

use crate::e2b::handlers;
use crate::e2b::handlers::{
    create_sandbox, domain, e2b_state, get_sandbox, list_item, list_page, list_sandboxes,
    machine_request, map_api_error, metadata_matches, parse_metadata_filter, public_metadata,
    refresh_sandbox, require_api_key, resolve_source, resume_sandbox, resumed_with_timeout,
    rfc3339, template_of, to_create_response, to_detail, to_list_item, CreateAction, CreateEvent,
    CreatePhase, E2bErrorResponse, ListQuery, RefreshAction, ResumeAction, SandboxPage,
};
use crate::e2b::machines::{ApiError, CreateMachineRequest, DeleteQuery, MachineInfo};
use crate::e2b::types::{
    CreateSandboxRequest, E2bError, RefreshBody, ResumeBody, SandboxCreateResponse, SandboxDetail,
    SandboxListItem,
};
use crate::http;
use crate::number;
use crate::string_map::StringMap;
use crate::text;
use vstd::prelude::*;
use vstd::string::*;

verus! {

// ---- create ----

/// The workload command of a machine is the one that was asked for, word by word; a
/// sandbox without a command, or with an empty one, sleeps.
pub proof fn law_workload_is_the_command_asked_for(
    req: CreateSandboxRequest,
    known: Option<String>,
    out: CreateMachineRequest,
)
    requires
        call_ensures(machine_request, (&req, known), out),
    ensures
        req.cmd is Some && req.cmd->0@.len() > 0 ==> out.cmd@.len() == req.cmd->0@.len() && forall|
            i: int,
        |
            0 <= i < out.cmd@.len() ==> (#[trigger] out.cmd@[i])@ == req.cmd->0@[i]@,
        req.cmd is None || req.cmd->0@.len() == 0 ==> out.cmd@.len() == 2 && out.cmd@[0]@
            == "sleep"@ && out.cmd@[1]@ == "infinity"@,
{
    if req.cmd is Some && req.cmd->0@.len() > 0 {
        let c = req.cmd->0@;
        assert(text::texts(out.cmd@).len() == text::texts(c).len());
        assert forall|i: int| 0 <= i < out.cmd@.len() implies (#[trigger] out.cmd@[i])@ == c[i]@ by {
            assert(text::texts(out.cmd@)[i] == text::texts(c)[i]);
        }
    } else {
        assert(text::texts(out.cmd@).len() == 2);
        assert(text::texts(out.cmd@)[0] == "sleep"@);
        assert(text::texts(out.cmd@)[1] == "infinity"@);
    }
}

/// A machine comes from what the template names: the artifact of a known template, the
/// image of that name otherwise, and `alpine` where none is named.
pub proof fn law_machine_comes_from_its_template(
    req: CreateSandboxRequest,
    known: Option<String>,
    out: CreateMachineRequest,
)
    requires
        call_ensures(machine_request, (&req, known), out),
    ensures
        req.template_id is None ==> out.from is None && out.image is Some && out.image->0@
            == "alpine"@,
        req.template_id is Some && known is Some ==> out.image is None && out.from is Some
            && out.from->0@ == known->0@,
        req.template_id is Some && known is None ==> out.from is None && out.image is Some
            && out.image->0@ == req.template_id->0@,
{
}

/// A machine gets the network, the timeouts, the size, the name and the directory that
/// were asked for: the network unless it was refused, and to pause when idle unless that
/// was refused.
pub proof fn law_machine_is_set_up_as_asked(
    req: CreateSandboxRequest,
    known: Option<String>,
    out: CreateMachineRequest,
)
    requires
        call_ensures(machine_request, (&req, known), out),
    ensures
        out.network <==> req.allow_internet_access is None || req.allow_internet_access->0,
        out.timeout_secs == req.timeout,
        req.auto_pause is Some && !req.auto_pause->0 ==> out.on_idle@ == "kill"@,
        req.auto_pause is None || req.auto_pause->0 ==> out.on_idle@ == "pause"@,
        out.name is Some <==> req.name is Some,
        req.name is Some ==> out.name->0@ == req.name->0@,
        out.workdir is Some <==> req.workdir is Some,
        req.workdir is Some ==> out.workdir->0@ == req.workdir->0@,
        out.cpus == req.cpus,
        out.memory_mb == req.memory_mb,
{
}

/// Every guest port that was asked for is exposed on some free host port, in order, and
/// no other.
pub proof fn law_every_port_is_exposed(
    req: CreateSandboxRequest,
    known: Option<String>,
    out: CreateMachineRequest,
)
    requires
        call_ensures(machine_request, (&req, known), out),
    ensures
        out.ports is Some <==> req.ports is Some,
        req.ports is Some ==> out.ports->0@.len() == req.ports->0@.len() && forall|i: int|
            0 <= i < out.ports->0@.len() ==> (#[trigger] out.ports->0@[i]).guest
                == req.ports->0@[i] && out.ports->0@[i].host == 0,
{
}

/// The environment of a machine is that of the request, and so is its metadata, but for
/// the template that the adapter notes beside it.
pub proof fn law_machine_keeps_environment_and_metadata(
    req: CreateSandboxRequest,
    known: Option<String>,
    out: CreateMachineRequest,
    k: Seq<char>,
)
    requires
        call_ensures(machine_request, (&req, known), out),
    ensures
        out.env@.len() == req.env_vars.entries@.len(),
        forall|i: int|
            0 <= i < out.env@.len() ==> (#[trigger] out.env@[i]).0@ == req.env_vars.entries@[i].0@
                && out.env@[i].1@ == req.env_vars.entries@[i].1@,
        out.metadata@.contains_key("e2b.templateID"@),
        req.template_id is Some ==> out.metadata@["e2b.templateID"@] == req.template_id->0@,
        req.template_id is None ==> out.metadata@["e2b.templateID"@] == "alpine"@,
        k != "e2b.templateID"@ ==> (out.metadata@.contains_key(k) <==> req.metadata@.contains_key(
            k,
        )),
        k != "e2b.templateID"@ && req.metadata@.contains_key(k) ==> out.metadata@[k]
            == req.metadata@[k],
{
    let a = http::pairs_view(out.env@);
    let b = http::pairs_view(req.env_vars.entries@);
    assert(a.len() == b.len());
    assert forall|i: int| 0 <= i < out.env@.len() implies (#[trigger] out.env@[i]).0@
        == req.env_vars.entries@[i].0@ && out.env@[i].1@ == req.env_vars.entries@[i].1@ by {
        assert(a[i] == b[i]);
    }
}

/// A source is an image or an artifact, never both: see what each call gives.
pub proof fn law_source_is_image_or_artifact(
    template: Option<String>,
    known: Option<String>,
    r: (Option<String>, Option<String>),
)
    requires
        call_ensures(resolve_source, (&template, known), r),
    ensures
        r.0 is Some <==> r.1 is None,
        r.1 is Some <==> template is Some && known is Some,
        r.1 is Some ==> r.1->0@ == known->0@,
        r.0 is Some && template is Some ==> r.0->0@ == template->0@,
        template is None ==> r.0->0@ == "alpine"@,
{
}

/// A creation goes step by step: the template is looked up where one is named, the
/// machine that was asked for is created, the created machine is started, and only a
/// machine that failed to start is deleted, by force and alone.
pub proof fn law_creation_goes_step_by_step(
    phase: CreatePhase,
    event: CreateEvent,
    preview_domain: Option<String>,
    r: (CreatePhase, CreateAction),
)
    requires
        handlers::expects(phase, event),
        call_ensures(create_sandbox, (phase, event, &preview_domain), r),
    ensures
        phase is New && phase->New_0.template_id is Some ==> r.1 is LookUp && r.1->LookUp_0@
            == phase->New_0.template_id->0@ && r.0 == CreatePhase::Resolving(phase->New_0),
        phase is New && phase->New_0.template_id is None ==> r.1 is Create && r.0 is Creating,
        phase is Resolving ==> r.1 is Create && r.0 is Creating,
        phase is Creating && event->Created_0 is Ok ==> r.1 is Start && r.1->Start_0@
            == event->Created_0->Ok_0.name@ && r.0 == CreatePhase::Starting(event->Created_0->Ok_0),
        phase is Creating && event->Created_0 is Err ==> r.0 is Done && r.1 is Fail && r.1->Fail_0.0
            == event->Created_0->Err_0,
        phase is Starting && event->Started_0 is Ok ==> r.0 is Done && r.1 is Reply && r.1->Reply_0
            == 201 && r.1->Reply_1.sandbox_id@ == phase->Starting_0.name@,
        phase is Starting && event->Started_0 is Err ==> r.1 is Delete && r.1->Delete_0@
            == phase->Starting_0.name@ && r.1->Delete_1.force && !r.1->Delete_1.cascade && r.0
            == CreatePhase::RollingBack(event->Started_0->Err_0),
        phase is RollingBack ==> r.0 is Done && r.1 is Fail && r.1->Fail_0.0
            == phase->RollingBack_0,
{
}

/// The machine that a creation asks for is the one that its request wants.
pub proof fn law_creation_asks_for_the_machine_wanted(
    req: CreateSandboxRequest,
    known: Option<String>,
    preview_domain: Option<String>,
    r: (CreatePhase, CreateAction),
)
    requires
        call_ensures(
            create_sandbox,
            (CreatePhase::Resolving(req), CreateEvent::Template(known), &preview_domain),
            r,
        ) || (req.template_id is None && known is None && call_ensures(
            create_sandbox,
            (CreatePhase::New(req), CreateEvent::Begin, &preview_domain),
            r,
        )),
    ensures
        r.1 is Create,
        ({
            let out = r.1->Create_0;
            &&& req.cmd is Some && req.cmd->0@.len() > 0 ==> out.cmd@.len() == req.cmd->0@.len()
                && forall|i: int|
                0 <= i < out.cmd@.len() ==> (#[trigger] out.cmd@[i])@ == req.cmd->0@[i]@
            &&& req.template_id is Some && known is None ==> out.image is Some && out.image->0@
                == req.template_id->0@
            &&& req.template_id is Some && known is Some ==> out.from is Some && out.from->0@
                == known->0@
            &&& out.network <==> req.allow_internet_access is None
                || req.allow_internet_access->0
            &&& out.timeout_secs == req.timeout
            &&& out.cpus == req.cpus
            &&& out.memory_mb == req.memory_mb
            &&& req.name is Some ==> out.name is Some && out.name->0@ == req.name->0@
        }),
{
    let out = r.1->Create_0;
    if req.cmd is Some && req.cmd->0@.len() > 0 {
        let c = req.cmd->0@;
        assert(text::texts(out.cmd@).len() == text::texts(c).len());
        assert forall|i: int| 0 <= i < out.cmd@.len() implies (#[trigger] out.cmd@[i])@ == c[i]@ by {
            assert(text::texts(out.cmd@)[i] == text::texts(c)[i]);
        }
    }
}

// ---- what a machine is shown as ----

/// A created or resumed sandbox is told by the machine's name and template, with the
/// preview domain where one is set, and hands out no tokens.
pub proof fn law_creation_is_answered_with_the_machine(
    info: MachineInfo,
    preview_domain: Option<String>,
    r: SandboxCreateResponse,
)
    requires
        call_ensures(to_create_response, (&info, &preview_domain), r),
    ensures
        r.sandbox_id@ == info.name@,
        info.metadata@.contains_key("e2b.templateID"@) ==> r.template_id@
            == info.metadata@["e2b.templateID"@],
        !info.metadata@.contains_key("e2b.templateID"@) ==> r.template_id@.len() == 0,
        r.alias is Some <==> r.template_id@.len() > 0,
        r.alias is Some ==> r.alias->0@ == r.template_id@,
        r.domain is Some <==> preview_domain is Some && preview_domain->0@.len() > 0,
        r.domain is Some ==> r.domain->0@ == preview_domain->0@,
        r.envd_access_token@.len() == 0,
        r.traffic_access_token is None,
        r.envd_version@ == "0.0.0-smolvm"@,
{
}

/// A list entry shows its machine: name, template, size, and state, with the client's own
/// metadata and no reserved key.
pub proof fn law_entry_shows_its_machine(
    info: MachineInfo,
    started: Option<String>,
    it: SandboxListItem,
    k: Seq<char>,
)
    requires
        call_ensures(list_item, (&info, started), it),
    ensures
        it.sandbox_id@ == info.name@,
        it.cpu_count == info.cpus,
        it.memory_mb == info.mem,
        info.storage_gb is Some ==> it.disk_size_mb == info.storage_gb->0 * 1024,
        info.storage_gb is None ==> it.disk_size_mb == 0,
        info.state@ == "running"@ ==> it.state@ == "running"@,
        info.state@ != "running"@ ==> it.state@ == "paused"@,
        it.started_at is Some <==> started is Some,
        started is Some ==> it.started_at->0@ == started->0@,
        it.end_at is None,
        info.metadata@.contains_key("e2b.templateID"@) ==> it.template_id@
            == info.metadata@["e2b.templateID"@],
        !info.metadata@.contains_key("e2b.templateID"@) ==> it.template_id@.len() == 0,
        it.alias is Some <==> it.template_id@.len() > 0,
        it.alias is Some ==> it.alias->0@ == it.template_id@,
        it.metadata@.contains_key(k) <==> info.metadata@.contains_key(k) && !"e2b."@.is_prefix_of(
            k,
        ),
        it.metadata@.contains_key(k) ==> it.metadata@[k] == info.metadata@[k],
        it.envd_version@ == "0.0.0-smolvm"@,
{
}

/// A detail is the entry of its machine, started when the machine was created; it resumes
/// by itself and pauses on timeout.
pub proof fn law_detail_shows_its_machine(info: MachineInfo, d: SandboxDetail)
    requires
        call_ensures(to_detail, (&info,), d),
    ensures
        d.base.sandbox_id@ == info.name@,
        d.base.cpu_count == info.cpus,
        d.base.memory_mb == info.mem,
        info.state@ == "running"@ ==> d.base.state@ == "running"@,
        info.state@ != "running"@ ==> d.base.state@ == "paused"@,
        info.created_at <= i64::MAX ==> text::opt(d.base.started_at) == handlers::instant_text(
            info.created_at as i64,
        ),
        d.lifecycle.auto_resume,
        d.lifecycle.on_timeout@ == "pause"@,
{
}

/// A sandbox that the lifecycle knows is shown; its error is passed on otherwise.
pub proof fn law_known_sandbox_is_shown(
    machine: Result<MachineInfo, ApiError>,
    r: Result<SandboxDetail, E2bErrorResponse>,
)
    requires
        call_ensures(get_sandbox, (machine,), r),
    ensures
        r is Ok <==> machine is Ok,
        machine is Ok ==> r->Ok_0.base.sandbox_id@ == machine->Ok_0.name@ && (
        r->Ok_0.base.state@ == "running"@ <==> machine->Ok_0.state@ == "running"@),
        machine is Err ==> r->Err_0.0 == machine->Err_0,
{
    reveal_strlit("running");
    reveal_strlit("paused");
    assert("running"@.len() != "paused"@.len());
}

/// A state is running or paused, and running exactly where the machine runs.
pub proof fn law_state_is_running_or_paused(state: &str, r: String)
    requires
        call_ensures(e2b_state, (state,), r),
    ensures
        r@ == "running"@ || r@ == "paused"@,
        r@ == "running"@ <==> state@ == "running"@,
{
    reveal_strlit("running");
    reveal_strlit("paused");
    assert("running"@.len() != "paused"@.len());
}

/// Instants are written as chrono writes them: that of the seconds themselves, as long as
/// these fit a signed number.
pub proof fn law_instants_are_told_by_their_seconds(secs: u64, r: Option<String>)
    requires
        call_ensures(rfc3339, (secs,), r),
    ensures
        secs <= 0x7fff_ffff_ffff_ffff ==> text::opt(r) == handlers::instant_text(secs as i64),
        secs > 0x7fff_ffff_ffff_ffff ==> text::opt(r) == handlers::instant_text(
            (secs - 0x1_0000_0000_0000_0000) as i64,
        ),
{
}

/// A client sees every key of its own and none that is reserved.
pub proof fn law_reserved_keys_never_show(m: StringMap, r: StringMap, k: Seq<char>)
    requires
        call_ensures(public_metadata, (&m,), r),
    ensures
        r@.contains_key(k) <==> m@.contains_key(k) && !"e2b."@.is_prefix_of(k),
        r@.contains_key(k) ==> r@[k] == m@[k],
{
}

/// A machine tells its template under a key of its own.
pub proof fn law_template_is_noted_in_the_metadata(info: MachineInfo, t: String)
    requires
        call_ensures(template_of, (&info,), t),
    ensures
        info.metadata@.contains_key("e2b.templateID"@) ==> t@ == info.metadata@["e2b.templateID"@],
        !info.metadata@.contains_key("e2b.templateID"@) ==> t@.len() == 0,
{
}

/// A preview domain is set where it is not empty.
pub proof fn law_empty_domain_is_none(raw: Option<String>, r: Option<String>)
    requires
        call_ensures(domain, (&raw,), r),
    ensures
        r is Some <==> raw is Some && raw->0@.len() > 0,
        r is Some ==> r->0@ == raw->0@,
{
}

// ---- errors and keys ----

/// Each failure of the lifecycle has its status, and keeps its message.
pub proof fn law_failures_have_their_status(e: ApiError, r: (u16, &'static str, String))
    requires
        call_ensures(map_api_error, (e,), r),
    ensures
        r.0 == 401 <==> e is Unauthorized,
        r.0 == 403 <==> e is Forbidden,
        r.0 == 404 <==> e is NotFound,
        r.0 == 409 <==> e is Conflict || e is PortConflict,
        r.0 == 400 <==> e is BadRequest,
        r.0 == 408 <==> e is Timeout,
        r.0 == 503 <==> e is Unavailable,
        r.0 == 500 <==> e is Internal || e is CloneIdentityRejuvenationFailed,
        e is Unauthorized ==> r.1@ == "unauthorized"@ && r.2@ == e->Unauthorized_0@,
        e is Forbidden ==> r.1@ == "forbidden"@ && r.2@ == e->Forbidden_0@,
        e is NotFound ==> r.1@ == "not_found"@ && r.2@ == e->NotFound_0@,
        e is Conflict ==> r.1@ == "conflict"@ && r.2@ == e->Conflict_0@,
        e is PortConflict ==> r.1@ == "port_in_use"@ && r.2@ == e->PortConflict_0@,
        e is BadRequest ==> r.1@ == "bad_request"@ && r.2@ == e->BadRequest_0@,
        e is Timeout ==> r.1@ == "timeout"@ && r.2@ == "request timed out"@,
        e is Unavailable ==> r.1@ == "unavailable"@ && r.2@ == e->Unavailable_0@,
        e is Internal ==> r.1@ == "internal_error"@ && r.2@ == e->Internal_0@,
        e is CloneIdentityRejuvenationFailed ==> r.1@ == "internal_error"@ && r.2@
            == e->CloneIdentityRejuvenationFailed_0@,
{
}

/// An error is answered with the status that its body names, and with its message.
pub proof fn law_error_body_names_its_status(
    e: E2bErrorResponse,
    body: E2bError,
    shape: (u16, &'static str, String),
)
    requires
        call_ensures(E2bErrorResponse::into_response, (e,), body),
        call_ensures(map_api_error, (e.0,), shape),
    ensures
        body.code == shape.0,
        body.error_code@ == shape.1@,
        body.message@ == shape.2@,
{
}

/// Where a key is set, exactly the requests that carry it pass; where none is set, all
/// do. A refused request is answered with 401.
pub proof fn law_only_the_key_opens(
    expected: Option<&str>,
    provided: Option<&str>,
    r: Option<E2bError>,
)
    requires
        call_ensures(require_api_key, (expected, provided), r),
    ensures
        expected is None ==> r is None,
        expected is Some && provided is None ==> r is Some,
        expected is Some && provided is Some ==> (r is None <==> provided->0@ == expected->0@),
        r is Some ==> r->0.code == 401 && r->0.error_code@ == "unauthorized"@,
{
}

// ---- list ----

/// Metadata passes a filter exactly where it holds every key of the filter with the very
/// value that the filter names: equally long, and the same character by character.
pub proof fn law_filter_wants_equal_values(m: StringMap, filter: StringMap, r: bool)
    requires
        call_ensures(metadata_matches, (&m, &filter), r),
    ensures
        r ==> forall|k: Seq<char>| #[trigger]
            filter@.contains_key(k) ==> m@.contains_key(k) && m@[k].len() == filter@[k].len()
                && forall|i: int| 0 <= i < filter@[k].len() ==> m@[k][i] == filter@[k][i],
        !r ==> exists|k: Seq<char>| #[trigger]
            filter@.contains_key(k) && (!m@.contains_key(k) || m@[k] != filter@[k]),
{
}

/// An empty filter lets everything pass, and a filter with one pair more lets pass what
/// passed before and has that pair.
pub proof fn law_each_pair_narrows_the_filter(
    m: StringMap,
    filter: StringMap,
    more: StringMap,
    k: Seq<char>,
    v: Seq<char>,
    r: bool,
    s: bool,
)
    requires
        call_ensures(metadata_matches, (&m, &filter), r),
        call_ensures(metadata_matches, (&m, &more), s),
        !filter@.contains_key(k),
        more@ == filter@.insert(k, v),
    ensures
        s <==> r && m@.contains_key(k) && m@[k] == v,
        filter@ == Map::<Seq<char>, Seq<char>>::empty() ==> r,
{
    if s {
        assert(more@.contains_key(k));
        assert forall|x: Seq<char>| #[trigger] filter@.contains_key(x) implies m@.contains_key(x)
            && m@[x] == filter@[x] by {
            assert(more@.contains_key(x));
        }
    }
    if r && m@.contains_key(k) && m@[k] == v {
        assert forall|x: Seq<char>| #[trigger] more@.contains_key(x) implies m@.contains_key(x)
            && m@[x] == more@[x] by {
            if x != k {
                assert(filter@.contains_key(x));
            }
        }
    }
}

/// The filter of a query: none writes none; one piece without `&` writes the pair around
/// its first `=`, or none where it has no `=`.
pub proof fn law_one_piece_writes_one_pair(raw: Option<String>, f: StringMap)
    requires
        call_ensures(parse_metadata_filter, (&raw,), f),
        raw is Some ==> !raw->0@.contains('&'),
    ensures
        raw is None ==> f@ == Map::<Seq<char>, Seq<char>>::empty(),
        raw is Some && !raw->0@.contains('=') ==> f@ == Map::<Seq<char>, Seq<char>>::empty(),
        forall|k: Seq<char>, v: Seq<char>|
            #![trigger k + seq!['='] + v]
            raw is Some && !k.contains('=') && raw->0@ == k + seq!['='] + v ==> f@ == Map::<
                Seq<char>,
                Seq<char>,
            >::empty().insert(k, v),
{
    if raw is Some {
        let s = raw->0@;
        text::lemma_index_of(s, '&');
        if text::index_of(s, '&') < s.len() {
            assert(s.contains(s[text::index_of(s, '&')]));
        }
        text::lemma_index_of(s, '=');
        let e = text::index_of(s, '=');
        if e < s.len() {
            assert(s.contains(s[e]));
        }
        assert forall|k: Seq<char>, v: Seq<char>|
            #![trigger k + seq!['='] + v]
            !k.contains('=') && s == k + seq!['='] + v implies f@ == Map::<
            Seq<char>,
            Seq<char>,
        >::empty().insert(k, v) by {
            lemma_cut_at(s, '=', k, v);
        }
    }
}

proof fn lemma_cut_at(s: Seq<char>, c: char, k: Seq<char>, v: Seq<char>)
    requires
        !k.contains(c),
        s == k + seq![c] + v,
    ensures
        text::split_once(s, c) == Some((k, v)),
{
    let n = k.len() as int;
    assert(s[n] == c);
    assert forall|j: int| 0 <= j < n implies s[j] != c by {
        assert(s[j] == k[j]);
        assert(k.contains(k[j]));
    }
    text::lemma_index_of_is(s, c, n);
    assert(s.take(n) =~= k);
    assert(s.skip(n + 1) =~= v);
}

proof fn lemma_pairs_over(m: Map<Seq<char>, Seq<char>>, s: Seq<char>)
    ensures
        handlers::with_pairs(m, s) == m.union_prefer_right(
            handlers::with_pairs(Map::<Seq<char>, Seq<char>>::empty(), s),
        ),
    decreases s.len(),
{
    let none = Map::<Seq<char>, Seq<char>>::empty();
    text::lemma_index_of(s, '&');
    match text::split_once(s, '&') {
        Some((piece, rest)) => {
            lemma_pairs_over(handlers::with_pair(m, piece), rest);
            lemma_pairs_over(handlers::with_pair(none, piece), rest);
            let tail = handlers::with_pairs(none, rest);
            assert(handlers::with_pair(m, piece).union_prefer_right(tail)
                =~= m.union_prefer_right(handlers::with_pair(none, piece).union_prefer_right(tail)));
        },
        None => {
            assert(handlers::with_pair(m, s) =~= m.union_prefer_right(handlers::with_pair(none, s)));
        },
    }
}

/// Pieces that `&` joins write what each of them writes, the later one where both write
/// the same key.
pub proof fn law_joined_pieces_write_all_their_pairs(
    one: String,
    rest: String,
    both: String,
    f: StringMap,
    g: StringMap,
    h: StringMap,
    k: Seq<char>,
)
    requires
        !one@.contains('&'),
        both@ == one@ + seq!['&'] + rest@,
        call_ensures(parse_metadata_filter, (&Some(one),), f),
        call_ensures(parse_metadata_filter, (&Some(rest),), g),
        call_ensures(parse_metadata_filter, (&Some(both),), h),
    ensures
        h@.contains_key(k) <==> f@.contains_key(k) || g@.contains_key(k),
        g@.contains_key(k) ==> h@[k] == g@[k],
        f@.contains_key(k) && !g@.contains_key(k) ==> h@[k] == f@[k],
{
    let none = Map::<Seq<char>, Seq<char>>::empty();
    lemma_cut_at(both@, '&', one@, rest@);
    text::lemma_index_of(one@, '&');
    if text::index_of(one@, '&') < one@.len() {
        assert(one@.contains(one@[text::index_of(one@, '&')]));
    }
    lemma_pairs_over(handlers::with_pair(none, one@), rest@);
}

proof fn lemma_listed_source(ms: Seq<MachineInfo>, q: ListQuery, i: int) -> (j: int)
    requires
        0 <= i < handlers::all_listed(ms, q).len(),
    ensures
        0 <= j < ms.len(),
        handlers::all_listed(ms, q)[i] == ms[j],
        handlers::listed(ms[j], q),
    decreases ms.len(),
{
    let t = ms.drop_last();
    let before = handlers::all_listed(t, q);
    if i < before.len() {
        let j = lemma_listed_source(t, q, i);
        assert(t[j] == ms[j]);
        j
    } else {
        ms.len() - 1
    }
}

/// Nothing is listed that was not asked for: each entry shows a machine of the list whose
/// metadata holds every pair of the filter, value for value, and which is in the state
/// asked for.
pub proof fn law_only_what_was_asked_for_is_listed(
    ms: Vec<MachineInfo>,
    q: ListQuery,
    page: SandboxPage,
    filter: StringMap,
    i: int,
)
    requires
        call_ensures(list_page, (&ms, &q), page),
        call_ensures(parse_metadata_filter, (&q.metadata,), filter),
        0 <= i < page.items@.len(),
    ensures
        exists|j: int|
            {
                &&& 0 <= j < ms@.len()
                &&& page.items@[i].sandbox_id@ == (#[trigger] ms@[j]).name@
                &&& page.items@[i].cpu_count == ms@[j].cpus
                &&& page.items@[i].memory_mb == ms@[j].mem
                &&& forall|k: Seq<char>| #[trigger]
                    filter@.contains_key(k) ==> ms@[j].metadata@.contains_key(k)
                        && ms@[j].metadata@[k].len() == filter@[k].len() && forall|c: int|
                        0 <= c < filter@[k].len() ==> ms@[j].metadata@[k][c] == filter@[k][c]
                &&& q.state is Some ==> page.items@[i].state@ == q.state->0@
                &&& page.items@[i].state@ == (if ms@[j].state@ == "running"@ {
                    "running"@
                } else {
                    "paused"@
                })
            },
{
    let j = lemma_listed_source(ms@, q, i);
    assert(handlers::is_item(
        page.items@[i],
        handlers::all_listed(ms@, q)[i],
        handlers::instant_text(handlers::signed(handlers::all_listed(ms@, q)[i].created_at)),
    ));
    assert(page.items@[i].sandbox_id@ == ms@[j].name@);
}

/// Everything that was asked for is listed, in order: without a limit, one machine more
/// at the end of the list adds one entry at the end of the page exactly where its
/// metadata passes the filter and its state is the one asked for; the other entries stay.
/// It adds one to the running machines where it is listed and runs. No machines make an
/// empty page.
pub proof fn law_one_machine_more(
    ms: Vec<MachineInfo>,
    more: Vec<MachineInfo>,
    q: ListQuery,
    page: SandboxPage,
    next: SandboxPage,
    filter: StringMap,
    passes: bool,
)
    requires
        q.limit is None,
        more@.len() == ms@.len() + 1,
        more@.drop_last() == ms@,
        call_ensures(list_page, (&ms, &q), page),
        call_ensures(list_page, (&more, &q), next),
        call_ensures(parse_metadata_filter, (&q.metadata,), filter),
        call_ensures(metadata_matches, (&more@.last().metadata, &filter), passes),
    ensures
        ms@.len() == 0 ==> page.items@.len() == 0,
        ({
            let m = more@.last();
            let runs = m.state@ == "running"@;
            let joins = passes && (q.state is Some ==> q.state->0@ == (if runs {
                "running"@
            } else {
                "paused"@
            }));
            &&& next.items@.len() == page.items@.len() + (if joins {
                1int
            } else {
                0int
            })
            &&& joins ==> next.items@.last().sandbox_id@ == m.name@
            &&& forall|i: int|
                0 <= i < page.items@.len() ==> (#[trigger] page.items@[i]).sandbox_id@
                    == next.items@[i].sandbox_id@ && page.items@[i].state@
                    == next.items@[i].state@
            &&& page.headers@.len() == 2
            &&& next.headers@.len() == 2
            &&& page.headers@[0].0@ == "x-total-running"@
            &&& page.headers@[1].0@ == "x-next-token"@
            &&& page.headers@[1].1@.len() == 0
            &&& exists|n: nat|
                {
                    &&& page.headers@[0].1@ == #[trigger] number::digits(n)
                    &&& next.headers@[0].1@ == number::digits(
                        if joins && runs {
                            n + 1
                        } else {
                            n
                        },
                    )
                    &&& n <= page.items@.len()
                }
        }),
{
    let m = more@.last();
    let a = handlers::all_listed(ms@, q);
    let b = handlers::all_listed(more@, q);
    lemma_running_bound(a);
    if handlers::listed(m, q) {
        assert(b == a.push(m));
        assert(a.push(m).drop_last() =~= a);
    }
    assert(http::pairs_view(page.headers@).len() == 2);
    assert(http::pairs_view(next.headers@).len() == 2);
    assert(http::pairs_view(page.headers@)[0] == (
        "x-total-running"@,
        number::digits(handlers::running_count(a)),
    ));
    assert(http::pairs_view(page.headers@)[1] == ("x-next-token"@, Seq::<char>::empty()));
    assert(http::pairs_view(next.headers@)[0] == (
        "x-total-running"@,
        number::digits(handlers::running_count(b)),
    ));
    assert forall|i: int| 0 <= i < page.items@.len() implies (#[trigger] page.items@[i]).sandbox_id@
        == next.items@[i].sandbox_id@ && page.items@[i].state@ == next.items@[i].state@ by {
        assert(a[i] == b[i]);
        assert(handlers::is_item(
            next.items@[i],
            b[i],
            handlers::instant_text(handlers::signed(b[i].created_at)),
        ));
    }
    if handlers::listed(m, q) {
        let n = next.items@.len() - 1;
        assert(handlers::is_item(
            next.items@[n],
            b[n],
            handlers::instant_text(handlers::signed(b[n].created_at)),
        ));
    }
    assert(page.headers@[0].1@ == number::digits(handlers::running_count(a)));
}

proof fn lemma_running_bound(ms: Seq<MachineInfo>)
    ensures
        handlers::running_count(ms) <= ms.len(),
    decreases ms.len(),
{
    if ms.len() > 0 {
        lemma_running_bound(ms.drop_last());
    }
}

/// A limit cuts the page after so many entries and changes nothing else.
pub proof fn law_limit_cuts_the_page(
    ms: Vec<MachineInfo>,
    q: ListQuery,
    unlimited: ListQuery,
    cut: SandboxPage,
    whole: SandboxPage,
)
    requires
        unlimited.metadata == q.metadata,
        unlimited.state == q.state,
        unlimited.limit is None,
        q.limit is Some,
        call_ensures(list_page, (&ms, &q), cut),
        call_ensures(list_page, (&ms, &unlimited), whole),
    ensures
        whole.items@.len() <= q.limit->0 ==> cut.items@.len() == whole.items@.len(),
        whole.items@.len() > q.limit->0 ==> cut.items@.len() == q.limit->0,
        forall|i: int|
            0 <= i < cut.items@.len() ==> (#[trigger] cut.items@[i]).sandbox_id@
                == whole.items@[i].sandbox_id@ && cut.items@[i].state@ == whole.items@[i].state@
                && cut.items@[i].template_id@ == whole.items@[i].template_id@
                && cut.items@[i].metadata@ == whole.items@[i].metadata@,
        cut.headers@.len() == whole.headers@.len(),
        forall|i: int|
            0 <= i < cut.headers@.len() ==> (#[trigger] cut.headers@[i]).0@
                == whole.headers@[i].0@ && cut.headers@[i].1@ == whole.headers@[i].1@,
{
    handlers::law_limit_only_cuts(cut, whole, ms@, q, unlimited);
    let a = http::pairs_view(cut.headers@);
    let b = http::pairs_view(whole.headers@);
    assert(a.len() == b.len());
    assert forall|i: int| 0 <= i < cut.headers@.len() implies (#[trigger] cut.headers@[i]).0@
        == whole.headers@[i].0@ && cut.headers@[i].1@ == whole.headers@[i].1@ by {
        assert(a[i] == b[i]);
    }
    assert forall|i: int| 0 <= i < cut.items@.len() implies (#[trigger] cut.items@[i]).sandbox_id@
        == whole.items@[i].sandbox_id@ && cut.items@[i].state@ == whole.items@[i].state@
        && cut.items@[i].template_id@ == whole.items@[i].template_id@ && cut.items@[i].metadata@
        == whole.items@[i].metadata@ by {
        assert(handlers::same_item(cut.items@[i], whole.items@[i]));
    }
}

/// The list is that of the lifecycle, or its error.
pub proof fn law_list_is_that_of_the_lifecycle(
    machines: Result<Vec<MachineInfo>, ApiError>,
    q: ListQuery,
    r: Result<SandboxPage, E2bErrorResponse>,
)
    requires
        call_ensures(list_sandboxes, (machines, &q), r),
    ensures
        r is Ok <==> machines is Ok,
        machines is Err ==> r->Err_0.0 == machines->Err_0,
        machines is Ok && q.metadata is None && q.state is None && q.limit is None
            ==> r->Ok_0.items@.len() == machines->Ok_0@.len() && forall|i: int|
            0 <= i < r->Ok_0.items@.len() ==> (#[trigger] r->Ok_0.items@[i]).sandbox_id@
                == machines->Ok_0@[i].name@,
{
    if machines is Ok && q.metadata is None && q.state is None && q.limit is None {
        handlers::law_no_filter_lists_all(machines->Ok_0@, q);
    }
}

// ---- resume, refresh, and the calls without a body ----

/// A resumed sandbox is answered with 201 once its timeout is set, where one was named;
/// a failed resumption is answered with its error.
pub proof fn law_resumption_sets_the_timeout_named(
    resumed: Result<MachineInfo, ApiError>,
    body: Option<ResumeBody>,
    preview_domain: Option<String>,
    r: ResumeAction,
    set: Result<(), ApiError>,
    after: ResumeAction,
)
    requires
        call_ensures(resume_sandbox, (resumed, body, &preview_domain), r),
        r is SetTimeout ==> call_ensures(resumed_with_timeout, (set, r->SetTimeout_1), after),
    ensures
        resumed is Err ==> r is Fail && r->Fail_0.0 == resumed->Err_0,
        resumed is Ok && body is Some && body->0.timeout is Some ==> r is SetTimeout
            && r->SetTimeout_0.timeout_secs == body->0.timeout->0 && r->SetTimeout_1.sandbox_id@
            == resumed->Ok_0.name@,
        resumed is Ok && (body is None || body->0.timeout is None) ==> r is Reply && r->Reply_0
            == 201 && r->Reply_1.sandbox_id@ == resumed->Ok_0.name@,
        r is SetTimeout && set is Ok ==> after is Reply && after->Reply_0 == 201 && after->Reply_1
            == r->SetTimeout_1,
        r is SetTimeout && set is Err ==> after is Fail && after->Fail_0.0 == set->Err_0,
{
}

/// A refresh sets the duration that is named, and touches the machine where none is.
pub proof fn law_refresh_sets_the_duration_named(body: Option<RefreshBody>, r: RefreshAction)
    requires
        call_ensures(refresh_sandbox, (body,), r),
    ensures
        r is SetTimeout <==> body is Some && body->0.duration is Some,
        r is SetTimeout ==> r->SetTimeout_0.timeout_secs == body->0.duration->0,
        r is Touch <==> body is None || body->0.duration is None,
{
}

/// A call without an answer of its own is answered with 204 where it was done, and with
/// the lifecycle's error where it was not.
pub proof fn law_done_calls_have_no_content(
    done: Result<(), ApiError>,
    paused: Result<u16, E2bErrorResponse>,
    deleted: Result<u16, E2bErrorResponse>,
    set: Result<u16, E2bErrorResponse>,
)
    requires
        call_ensures(handlers::pause_sandbox, (done,), paused),
        call_ensures(handlers::delete_sandbox, (done,), deleted),
        call_ensures(handlers::set_timeout, (done,), set),
    ensures
        done is Ok ==> paused == Ok::<u16, E2bErrorResponse>(204) && deleted == Ok::<
            u16,
            E2bErrorResponse,
        >(204) && set == Ok::<u16, E2bErrorResponse>(204),
        done is Err ==> paused is Err && paused->Err_0.0 == done->Err_0 && deleted is Err
            && deleted->Err_0.0 == done->Err_0 && set is Err && set->Err_0.0 == done->Err_0,
{
}

/// A sandbox is deleted by force and alone, and a timeout is the one that was asked for.
pub proof fn law_lifecycle_requests(
    q: DeleteQuery,
    body: crate::e2b::types::SetTimeoutBody,
    t: crate::e2b::machines::SetTimeoutRequest,
    default: u64,
)
    requires
        call_ensures(handlers::delete_query, (), q),
        call_ensures(handlers::timeout_request, (body,), t),
        call_ensures(crate::e2b::types::default_timeout, (), default),
    ensures
        q.force,
        !q.cascade,
        t.timeout_secs == body.timeout,
        default == 15,
{
}

/// A machine is shown alike wherever it is shown: in a list, in its detail and where it is
/// asked for.
pub proof fn law_a_machine_is_shown_alike(
    info: MachineInfo,
    started: Option<String>,
    entry: SandboxListItem,
    listed: SandboxListItem,
    d: SandboxDetail,
    r: Result<SandboxDetail, E2bErrorResponse>,
)
    requires
        call_ensures(list_item, (&info, started), entry),
        call_ensures(to_list_item, (&info,), listed),
        call_ensures(to_detail, (&info,), d),
        call_ensures(get_sandbox, (Ok::<MachineInfo, ApiError>(info),), r),
        call_ensures(rfc3339, (info.created_at,), started),
    ensures
        r is Ok,
        r->Ok_0.lifecycle.auto_resume,
        r->Ok_0.lifecycle.on_timeout@ == "pause"@,
        alike(listed, entry),
        alike(d.base, entry),
        alike(r->Ok_0.base, entry),
{
}

/// Whether two entries show the same.
pub open spec fn alike(a: SandboxListItem, b: SandboxListItem) -> bool {
    &&& a.sandbox_id@ == b.sandbox_id@
    &&& a.template_id@ == b.template_id@
    &&& text::opt(a.started_at) == text::opt(b.started_at)
    &&& text::opt(a.end_at) == text::opt(b.end_at)
    &&& a.cpu_count == b.cpu_count
    &&& a.memory_mb == b.memory_mb
    &&& a.disk_size_mb == b.disk_size_mb
    &&& a.metadata@ == b.metadata@
    &&& a.state@ == b.state@
    &&& a.envd_version@ == b.envd_version@
    &&& text::opt(a.alias) == text::opt(b.alias)
}

}
