//! Inspecting a running cluster frontend over HTTP: which paths a command asks for,
//! and how what comes back is shown.
//!
//! A cluster spans machines, so these commands query a frontend's HTTP surface:
//! `/cluster/roster`, `/cluster/members`, `/cluster/sandboxes`, and the merged
//! `/api/v1/machines`. A cluster frontend always listens on TCP, so the target must be
//! an `http(s)://` URL.

use crate::bytes;
use crate::ids;
use crate::number;
use crate::string_map::StringMap;
use crate::text;
use vstd::prelude::*;
use vstd::slice::slice_subrange;
use vstd::string::*;
use vstd::utf8::{decode_utf8, encode_utf8, valid_utf8};

verus! {

/// The options of the command.
#[derive(Debug)]
pub struct ClusterCmd {
    /// What to show: the status where none is named.
    pub cmd: Option<ClusterSub>,
    /// Frontend base URL (TCP).
    pub url: Option<String>,
    /// `X-API-Key` for an auth-gated frontend.
    pub api_key: Option<String>,
    /// Emit raw JSON instead of a formatted table.
    pub json: bool,
}

/// What to show.
#[derive(Clone, Copy, PartialEq, Eq, Structural, Debug)]
pub enum ClusterSub {
    /// Backends, the machines placed on each, and their state.
    Status,
    /// Connected backends and their spare capacity.
    Backends,
    /// All cluster members (frontends and backends).
    Members,
    /// Sandbox to backend placement recorded by the frontend.
    Placements,
    /// All machines across the cluster, with their state.
    Machines,
}

/// A backend on the roster.
#[derive(Debug)]
pub struct Backend {
    pub id: String,
    pub direct_path: bool,
    pub age_ms: u64,
    pub capacity: Capacity,
}

/// A backend's capacity.
#[derive(Debug)]
pub struct Capacity {
    /// The load of the processors, written with one decimal.
    pub cpu_used: String,
    pub mem_available_mb: u64,
    pub running_vms: u64,
    pub stalled: bool,
}

/// A cluster member.
#[derive(Debug)]
pub struct Member {
    pub id: String,
    pub role: String,
    pub connected: bool,
    pub age_ms: u64,
}

/// Where a sandbox is placed.
#[derive(Debug)]
pub struct Placement {
    pub backend: String,
    pub sandbox: String,
}

/// A machine on the merged list.
pub struct Machine {
    pub name: String,
    pub state: String,
    pub cpus: u32,
    pub memory_mb: u32,
    pub metadata: StringMap,
}

// ---- options ----

/// Whether a URL can name a cluster frontend.
pub open spec fn is_http(url: Seq<char>) -> bool {
    "http://"@.is_prefix_of(url) || "https://"@.is_prefix_of(url)
}

/// The message for a URL that cannot name a cluster frontend; `quoted` is the URL in
/// quotes.
pub open spec fn bad_url_line(quoted: Seq<char>) -> Seq<char> {
    "--url must be an http(s) URL for a cluster frontend (got "@ + quoted
        + "); frontends listen on TCP, not a unix socket"@
}

/// The message for a URL that cannot name a cluster frontend, once it is in quotes.
pub fn write_bad_url(quoted: &str) -> (m: String)
    ensures
        m@ == bad_url_line(quoted@),
{
    let mut m = "--url must be an http(s) URL for a cluster frontend (got ".to_owned();
    m.append(quoted);
    m.append("); frontends listen on TCP, not a unix socket");
    m
}

/// The message for a URL that cannot name a cluster frontend.
pub open spec fn bad_url_text(url: Seq<char>) -> Seq<char> {
    bad_url_line(ids::debug_text(url))
}

/// The message for a URL that cannot name a cluster frontend.
pub fn bad_url_message(url: &str) -> (m: String)
    ensures
        m@ == bad_url_text(url@),
{
    let quoted = ids::quoted(url);
    write_bad_url(quoted.as_str())
}

/// The API key in force: the option or the setting, where it is not empty.
pub open spec fn key_given(option: Option<Seq<char>>, setting: Option<Seq<char>>) -> Option<
    Seq<char>,
> {
    let k = match option {
        Some(s) => Some(s),
        None => setting,
    };
    match k {
        Some(s) => if s.len() == 0 {
            None
        } else {
            Some(s)
        },
        None => None,
    }
}

impl ClusterCmd {
    /// The URL that the command is pointed at.
    pub open spec fn raw_url(&self, env_url: Option<Seq<char>>) -> Seq<char> {
        match text::opt(self.url) {
            Some(s) => s,
            None => match env_url {
                Some(s) => s,
                None => "http://127.0.0.1:8080"@,
            },
        }
    }

    /// The frontend's base URL, without trailing slashes, or the message for one that
    /// is not HTTP.
    pub fn resolve_url(&self, env_url: &Option<String>) -> (r: Result<String, String>)
        ensures
            match r {
                Ok(s) => is_http(self.raw_url(text::opt(*env_url))) && s@ == text::trim_end_char(
                    self.raw_url(text::opt(*env_url)),
                    '/',
                ),
                Err(m) => !is_http(self.raw_url(text::opt(*env_url))) && m@ == bad_url_text(
                    self.raw_url(text::opt(*env_url)),
                ),
            },
    {
        let raw: String = match &self.url {
            Some(s) => s.as_str().to_owned(),
            None => match env_url {
                Some(s) => s.as_str().to_owned(),
                None => "http://127.0.0.1:8080".to_owned(),
            },
        };
        let c = text::chars_of(raw.as_str());
        let http = text::chars_of("http://");
        let https = text::chars_of("https://");
        if text::begins_with(c.as_slice(), http.as_slice()) || text::begins_with(
            c.as_slice(),
            https.as_slice(),
        ) {
            Ok(text::string_of(text::strip_end_char(c.as_slice(), '/')))
        } else {
            Err(bad_url_message(raw.as_str()))
        }
    }

    /// The base URL and the API key to query with.
    pub fn run(&self, env_url: &Option<String>, env_key: &Option<String>) -> (r: Result<
        (String, Option<String>),
        String,
    >)
        ensures
            match r {
                Ok((base, key)) => {
                    &&& is_http(self.raw_url(text::opt(*env_url)))
                    &&& base@ == text::trim_end_char(self.raw_url(text::opt(*env_url)), '/')
                    &&& text::opt(key) == key_given(text::opt(self.api_key), text::opt(*env_key))
                },
                Err(m) => !is_http(self.raw_url(text::opt(*env_url))) && m@ == bad_url_text(
                    self.raw_url(text::opt(*env_url)),
                ),
            },
    {
        let base = match self.resolve_url(env_url) {
            Ok(b) => b,
            Err(m) => {
                return Err(m);
            },
        };
        let k = match &self.api_key {
            Some(s) => Some(s.as_str().to_owned()),
            None => text::copy_opt(env_key),
        };
        let key = match k {
            Some(s) => {
                let c = text::chars_of(s.as_str());
                if c.len() == 0 {
                    None
                } else {
                    Some(s)
                }
            },
            None => None,
        };
        Ok((base, key))
    }

    /// What the command shows.
    pub open spec fn shown(&self) -> ClusterSub {
        match self.cmd {
            Some(c) => c,
            None => ClusterSub::Status,
        }
    }

    /// The paths to query, in order.
    pub fn dispatch(&self) -> (v: Vec<&'static str>)
        ensures
            v@.len() == paths_of(self.shown()).len(),
            forall|i: int| 0 <= i < v@.len() ==> (#[trigger] v@[i])@ == paths_of(self.shown())[i],
    {
        let sub = match self.cmd {
            Some(c) => c,
            None => ClusterSub::Status,
        };
        let mut v: Vec<&'static str> = Vec::new();
        match sub {
            ClusterSub::Backends => {
                v.push("/cluster/roster");
            },
            ClusterSub::Members => {
                v.push("/cluster/members");
            },
            ClusterSub::Placements => {
                v.push("/cluster/sandboxes");
            },
            ClusterSub::Machines => {
                v.push("/api/v1/machines");
            },
            ClusterSub::Status => {
                v.push("/cluster/roster");
                v.push("/cluster/sandboxes");
                v.push("/api/v1/machines");
            },
        }
        v
    }

    /// What the command prints of the replies: raw JSON where it is asked for, the table
    /// of the view otherwise.
    pub fn printed(&self) -> (p: Printed)
        ensures
            p == (if !self.json {
                Printed::Table(self.shown())
            } else if self.shown() == ClusterSub::Status {
                Printed::Replies
            } else {
                Printed::Reply
            }),
            p is Reply ==> paths_of(self.shown()).len() == 1,
            p is Replies ==> paths_of(self.shown()).len() == 3,
    {
        let sub = match self.cmd {
            Some(c) => c,
            None => ClusterSub::Status,
        };
        if !self.json {
            Printed::Table(sub)
        } else {
            match sub {
                ClusterSub::Status => Printed::Replies,
                _ => Printed::Reply,
            }
        }
    }
}

/// What a command prints.
#[derive(Clone, Copy, PartialEq, Eq, Structural, Debug)]
pub enum Printed {
    /// The one reply, as JSON.
    Reply,
    /// The three replies of the status view as one JSON object, under `backends`,
    /// `placements` and `machines`.
    Replies,
    /// The table of this view.
    Table(ClusterSub),
}

/// The paths that a view is made of, in the order in which they are queried.
pub open spec fn paths_of(sub: ClusterSub) -> Seq<Seq<char>> {
    match sub {
        ClusterSub::Backends => seq!["/cluster/roster"@],
        ClusterSub::Members => seq!["/cluster/members"@],
        ClusterSub::Placements => seq!["/cluster/sandboxes"@],
        ClusterSub::Machines => seq!["/api/v1/machines"@],
        ClusterSub::Status => seq![
            "/cluster/roster"@,
            "/cluster/sandboxes"@,
            "/api/v1/machines"@,
        ],
    }
}

// ---- fetch ----

/// The message for a frontend that cannot be reached.
pub fn unreachable_message(base: &str, path: &str, detail: &str) -> (m: String)
    ensures
        m@ == "cannot reach "@ + base@ + path@ + ": "@ + detail@,
{
    let mut m = String::new();
    m.append("cannot reach ");
    m.append(base);
    m.append(path);
    m.append(": ");
    m.append(detail);
    assert(m@ =~= "cannot reach "@ + base@ + path@ + ": "@ + detail@);
    m
}

/// The message for a reply that breaks off.
pub fn read_message(path: &str, detail: &str) -> (m: String)
    ensures
        m@ == "read "@ + path@ + ": "@ + detail@,
{
    let mut m = String::new();
    m.append("read ");
    m.append(path);
    m.append(": ");
    m.append(detail);
    assert(m@ =~= "read "@ + path@ + ": "@ + detail@);
    m
}

/// The message for a reply that is not the JSON it should be.
pub fn parse_message(path: &str, detail: &str) -> (m: String)
    ensures
        m@ == "parse "@ + path@ + ": "@ + detail@,
{
    let mut m = String::new();
    m.append("parse ");
    m.append(path);
    m.append(": ");
    m.append(detail);
    assert(m@ =~= "parse "@ + path@ + ": "@ + detail@);
    m
}

/// What is wrong with a reply of this status and body, if anything is.
pub open spec fn refusal(base: Seq<char>, path: Seq<char>, status: u16, body: Seq<char>) -> Option<
    Seq<char>,
> {
    if status == 404 && "/cluster/"@.is_prefix_of(path) {
        Some(
            base + " has no "@ + path
                + " — is it a cluster frontend? (a single-process or backend serve has no /cluster endpoints)"@,
        )
    } else if !(200 <= status < 300) {
        Some(path + " -> HTTP "@ + number::digits(status as nat) + ": "@ + text::trim(body))
    } else {
        None
    }
}

/// Looks at the status of a reply: the message for one that is no success. A missing
/// cluster path says that the target is no cluster frontend.
pub fn get(base: &str, path: &str, status: u16, body: &str) -> (r: Result<(), String>)
    ensures
        match r {
            Ok(_) => refusal(base@, path@, status, body@) is None,
            Err(m) => refusal(base@, path@, status, body@) == Some(m@),
        },
{
    let p = text::chars_of(path);
    let prefix = text::chars_of("/cluster/");
    if status == 404 && text::begins_with(p.as_slice(), prefix.as_slice()) {
        let mut m = String::new();
        m.append(base);
        m.append(" has no ");
        m.append(path);
        m.append(
            " — is it a cluster frontend? (a single-process or backend serve has no /cluster endpoints)",
        );
        assert(m@ =~= refusal(base@, path@, status, body@)->0);
        return Err(m);
    }
    if !(200 <= status && status < 300) {
        let c = text::chars_of(body);
        let mut m = String::new();
        m.append(path);
        m.append(" -> HTTP ");
        m.append(number::decimal(status as u64).as_str());
        m.append(": ");
        m.append(text::string_of(text::strip(c.as_slice())).as_str());
        assert(m@ =~= refusal(base@, path@, status, body@)->0);
        return Err(m);
    }
    Ok(())
}

// ---- cells ----

/// Whether an id can be cut after twelve bytes.
pub open spec fn shortable(id: Seq<char>) -> bool {
    encode_utf8(id).len() > 12 ==> valid_utf8(encode_utf8(id).take(12))
}

/// The first twelve bytes of an id, with an ellipsis when cut.
pub open spec fn short_text(id: Seq<char>) -> Seq<char> {
    if encode_utf8(id).len() > 12 {
        decode_utf8(encode_utf8(id).take(12)) + "…"@
    } else {
        id
    }
}

/// First 12 hex digits of an endpoint id, with an ellipsis when truncated.
pub fn short(id: &str) -> (s: String)
    requires
        shortable(id@),
    ensures
        s@ == short_text(id@),
{
    let b = bytes::bytes_of(id);
    if b.len() > 12 {
        let head = slice_subrange(b.as_slice(), 0, 12);
        assert(head@ =~= b@.take(12));
        match bytes::utf8_chars(head) {
            Some(c) => {
                let mut s = text::string_of(c.as_slice());
                s.append("…");
                assert(s@ =~= short_text(id@));
                s
            },
            None => vstd::pervasive::unreached(),
        }
    } else {
        id.to_owned()
    }
}

/// An age in whole seconds.
pub fn secs(age_ms: u64) -> (s: String)
    ensures
        s@ == secs_text(age_ms),
{
    let mut s = number::decimal(age_ms / 1000);
    s.append("s");
    assert(s@ =~= secs_text(age_ms));
    s
}

/// An age in whole seconds.
pub open spec fn secs_text(age_ms: u64) -> Seq<char> {
    number::digits((age_ms / 1000) as nat) + "s"@
}

/// So many spaces.
pub open spec fn spaces(n: int) -> Seq<char> {
    Seq::new(
        if n > 0 {
            n as nat
        } else {
            0
        },
        |i: int| ' ',
    )
}

/// `s`, filled up with spaces to `width` characters.
pub open spec fn pad_end(s: Seq<char>, width: int) -> Seq<char> {
    s + spaces(width - s.len())
}

/// `s`, moved to the right by spaces to end at `width` characters.
pub open spec fn pad_start(s: Seq<char>, width: int) -> Seq<char> {
    spaces(width - s.len()) + s
}

fn append_spaces(out: &mut String, n: usize)
    ensures
        final(out)@ == old(out)@ + spaces(n as int),
{
    let ghost start = out@;
    let mut i: usize = 0;
    assert(out@ =~= start + spaces(0));
    while i < n
        invariant
            i <= n,
            out@ == start + spaces(i as int),
        decreases n - i,
    {
        text::push_char(out, ' ');
        i = i + 1;
        assert(out@ =~= start + spaces(i as int));
    }
}

/// Appends `s`, filled up to `width`.
fn put_left(out: &mut String, s: &str, width: usize)
    ensures
        final(out)@ == old(out)@ + pad_end(s@, width as int),
{
    let n = text::chars_of(s).len();
    let ghost start = out@;
    out.append(s);
    if n < width {
        append_spaces(out, width - n);
    }
    assert(out@ =~= start + pad_end(s@, width as int));
}

/// Appends `s`, moved to the right to end at `width`.
fn put_right(out: &mut String, s: &str, width: usize)
    ensures
        final(out)@ == old(out)@ + pad_start(s@, width as int),
{
    let n = text::chars_of(s).len();
    let ghost start = out@;
    if n < width {
        append_spaces(out, width - n);
    }
    out.append(s);
    assert(out@ =~= start + pad_start(s@, width as int));
}

/// `s`, filled up to `width`.
fn left_cell(s: &str, width: usize) -> (out: String)
    ensures
        out@ == pad_end(s@, width as int),
{
    let mut out = String::new();
    put_left(&mut out, s, width);
    assert(out@ =~= pad_end(s@, width as int));
    out
}

/// How the forward path of a backend is named.
pub open spec fn path_name(direct: bool) -> Seq<char> {
    if direct {
        "direct"@
    } else {
        "relay"@
    }
}

fn name_path(direct: bool) -> (s: &'static str)
    ensures
        s@ == path_name(direct),
{
    if direct {
        "direct"
    } else {
        "relay"
    }
}

/// The template that a machine's metadata names, or a dash.
pub open spec fn template_cell(m: Map<Seq<char>, Seq<char>>) -> Seq<char> {
    if m.contains_key("e2b.templateID"@) {
        m["e2b.templateID"@]
    } else {
        "-"@
    }
}

fn name_template(m: &Machine) -> (s: &str)
    requires
        m.metadata.wf(),
    ensures
        s@ == template_cell(m.metadata@),
{
    match m.metadata.get("e2b.templateID") {
        Some(t) => t,
        None => "-",
    }
}

// ---- backends ----

/// The head of the table of backends.
pub open spec fn backends_head() -> Seq<char> {
    pad_end("BACKEND"@, 13) + " "@ + pad_start("VMS"@, 4) + " "@ + pad_start("CPU"@, 6) + " "@
        + pad_start("MEM_FREE"@, 10) + " "@ + pad_end("PATH"@, 7) + " "@ + pad_start("AGE"@, 5)
        + "\n"@
}

/// One line of the table of backends.
pub open spec fn backend_row(b: Backend) -> Seq<char> {
    pad_end(short_text(b.id@), 13) + " "@ + pad_start(
        number::digits(b.capacity.running_vms as nat),
        4,
    ) + " "@ + pad_start(b.capacity.cpu_used@, 6) + " "@ + pad_start(
        number::digits(b.capacity.mem_available_mb as nat),
        8,
    ) + "MB "@ + pad_end(path_name(b.direct_path), 7) + " "@ + pad_start(secs_text(b.age_ms), 5) + (
    if b.capacity.stalled {
        " [STALLED]"@
    } else {
        ""@
    }) + "\n"@
}

/// The lines of the table of backends.
pub open spec fn backend_rows(bs: Seq<Backend>) -> Seq<char>
    decreases bs.len(),
{
    if bs.len() == 0 {
        seq![]
    } else {
        backend_rows(bs.drop_last()) + backend_row(bs.last())
    }
}

/// The table of backends.
pub open spec fn backends_text(bs: Seq<Backend>) -> Seq<char> {
    if bs.len() == 0 {
        "no backends connected\n"@
    } else {
        backends_head() + backend_rows(bs)
    }
}

fn row_of_backend(b: &Backend) -> (s: String)
    requires
        shortable(b.id@),
    ensures
        s@ == backend_row(*b),
{
    let stalled: &str = if b.capacity.stalled {
        " [STALLED]"
    } else {
        ""
    };
    let mut s = left_cell(short(b.id.as_str()).as_str(), 13);
    s.append(" ");
    put_right(&mut s, number::decimal(b.capacity.running_vms).as_str(), 4);
    s.append(" ");
    put_right(&mut s, b.capacity.cpu_used.as_str(), 6);
    s.append(" ");
    put_right(&mut s, number::decimal(b.capacity.mem_available_mb).as_str(), 8);
    s.append("MB ");
    put_left(&mut s, name_path(b.direct_path), 7);
    s.append(" ");
    put_right(&mut s, secs(b.age_ms).as_str(), 5);
    s.append(stalled);
    s.append("\n");
    s
}

/// The table of backends, as text.
pub fn render_backends(backends: &Vec<Backend>) -> (out: String)
    requires
        forall|i: int| 0 <= i < backends@.len() ==> shortable((#[trigger] backends@[i]).id@),
    ensures
        out@ == backends_text(backends@),
{
    if backends.len() == 0 {
        return "no backends connected\n".to_owned();
    }
    let mut out = left_cell("BACKEND", 13);
    out.append(" ");
    put_right(&mut out, "VMS", 4);
    out.append(" ");
    put_right(&mut out, "CPU", 6);
    out.append(" ");
    put_right(&mut out, "MEM_FREE", 10);
    out.append(" ");
    put_left(&mut out, "PATH", 7);
    out.append(" ");
    put_right(&mut out, "AGE", 5);
    out.append("\n");
    assert(backends_head() + backend_rows(backends@.take(0)) =~= backends_head());
    let mut i: usize = 0;
    while i < backends.len()
        invariant
            forall|k: int| 0 <= k < backends@.len() ==> shortable((#[trigger] backends@[k]).id@),
            i <= backends@.len(),
            out@ == backends_head() + backend_rows(backends@.take(i as int)),
        decreases backends@.len() - i,
    {
        let row = row_of_backend(&backends[i]);
        out.append(row.as_str());
        assert(backends@.take(i + 1).drop_last() =~= backends@.take(i as int));
        assert(out@ =~= backends_head() + backend_rows(backends@.take(i + 1)));
        i = i + 1;
    }
    assert(backends@.take(i as int) =~= backends@);
    out
}

// ---- members ----

/// The head of the table of members.
pub open spec fn members_head() -> Seq<char> {
    pad_end("MEMBER"@, 13) + " "@ + pad_end("ROLE"@, 9) + " "@ + pad_end("CONNECTED"@, 10) + " "@
        + pad_start("AGE"@, 5) + "\n"@
}

/// One line of the table of members.
pub open spec fn member_row(m: Member) -> Seq<char> {
    pad_end(short_text(m.id@), 13) + " "@ + pad_end(m.role@, 9) + " "@ + pad_end(
        if m.connected {
            "true"@
        } else {
            "false"@
        },
        10,
    ) + " "@ + pad_start(secs_text(m.age_ms), 5) + "\n"@
}

/// The lines of the table of members.
pub open spec fn member_rows(ms: Seq<Member>) -> Seq<char>
    decreases ms.len(),
{
    if ms.len() == 0 {
        seq![]
    } else {
        member_rows(ms.drop_last()) + member_row(ms.last())
    }
}

/// The table of members.
pub open spec fn members_text(ms: Seq<Member>) -> Seq<char> {
    if ms.len() == 0 {
        "no members\n"@
    } else {
        members_head() + member_rows(ms)
    }
}

fn row_of_member(m: &Member) -> (s: String)
    requires
        shortable(m.id@),
    ensures
        s@ == member_row(*m),
{
    let connected: &str = if m.connected {
        "true"
    } else {
        "false"
    };
    let mut s = left_cell(short(m.id.as_str()).as_str(), 13);
    s.append(" ");
    put_left(&mut s, m.role.as_str(), 9);
    s.append(" ");
    put_left(&mut s, connected, 10);
    s.append(" ");
    put_right(&mut s, secs(m.age_ms).as_str(), 5);
    s.append("\n");
    s
}

/// The table of members, as text.
pub fn render_members(members: &Vec<Member>) -> (out: String)
    requires
        forall|i: int| 0 <= i < members@.len() ==> shortable((#[trigger] members@[i]).id@),
    ensures
        out@ == members_text(members@),
{
    if members.len() == 0 {
        return "no members\n".to_owned();
    }
    let mut out = left_cell("MEMBER", 13);
    out.append(" ");
    put_left(&mut out, "ROLE", 9);
    out.append(" ");
    put_left(&mut out, "CONNECTED", 10);
    out.append(" ");
    put_right(&mut out, "AGE", 5);
    out.append("\n");
    assert(members_head() + member_rows(members@.take(0)) =~= members_head());
    let mut i: usize = 0;
    while i < members.len()
        invariant
            forall|k: int| 0 <= k < members@.len() ==> shortable((#[trigger] members@[k]).id@),
            i <= members@.len(),
            out@ == members_head() + member_rows(members@.take(i as int)),
        decreases members@.len() - i,
    {
        let row = row_of_member(&members[i]);
        out.append(row.as_str());
        assert(members@.take(i + 1).drop_last() =~= members@.take(i as int));
        assert(out@ =~= members_head() + member_rows(members@.take(i + 1)));
        i = i + 1;
    }
    assert(members@.take(i as int) =~= members@);
    out
}

// ---- placements ----

/// The head of the table of placements.
pub open spec fn placements_head() -> Seq<char> {
    pad_end("SANDBOX"@, 20) + " "@ + pad_end("BACKEND"@, 13) + "\n"@
}

/// One line of the table of placements.
pub open spec fn placement_row(p: Placement) -> Seq<char> {
    pad_end(p.sandbox@, 20) + " "@ + pad_end(short_text(p.backend@), 13) + "\n"@
}

/// The lines of the table of placements.
pub open spec fn placement_rows(ps: Seq<Placement>) -> Seq<char>
    decreases ps.len(),
{
    if ps.len() == 0 {
        seq![]
    } else {
        placement_rows(ps.drop_last()) + placement_row(ps.last())
    }
}

/// The table of placements.
pub open spec fn placements_text(ps: Seq<Placement>) -> Seq<char> {
    if ps.len() == 0 {
        "no sandboxes placed\n"@
    } else {
        placements_head() + placement_rows(ps)
    }
}

fn row_of_placement(p: &Placement) -> (s: String)
    requires
        shortable(p.backend@),
    ensures
        s@ == placement_row(*p),
{
    let mut s = left_cell(p.sandbox.as_str(), 20);
    s.append(" ");
    put_left(&mut s, short(p.backend.as_str()).as_str(), 13);
    s.append("\n");
    s
}

/// The table of placements, as text.
pub fn render_placements(placements: &Vec<Placement>) -> (out: String)
    requires
        forall|i: int|
            0 <= i < placements@.len() ==> shortable((#[trigger] placements@[i]).backend@),
    ensures
        out@ == placements_text(placements@),
{
    if placements.len() == 0 {
        return "no sandboxes placed\n".to_owned();
    }
    let mut out = left_cell("SANDBOX", 20);
    out.append(" ");
    put_left(&mut out, "BACKEND", 13);
    out.append("\n");
    assert(placements_head() + placement_rows(placements@.take(0)) =~= placements_head());
    let mut i: usize = 0;
    while i < placements.len()
        invariant
            forall|k: int|
                0 <= k < placements@.len() ==> shortable((#[trigger] placements@[k]).backend@),
            i <= placements@.len(),
            out@ == placements_head() + placement_rows(placements@.take(i as int)),
        decreases placements@.len() - i,
    {
        let row = row_of_placement(&placements[i]);
        out.append(row.as_str());
        assert(placements@.take(i + 1).drop_last() =~= placements@.take(i as int));
        assert(out@ =~= placements_head() + placement_rows(placements@.take(i + 1)));
        i = i + 1;
    }
    assert(placements@.take(i as int) =~= placements@);
    out
}

// ---- machines ----

/// The head of the table of machines.
pub open spec fn machines_head() -> Seq<char> {
    pad_end("MACHINE"@, 20) + " "@ + pad_end("STATE"@, 10) + " "@ + pad_start("CPU"@, 4) + " "@
        + pad_start("MEM"@, 8) + " "@ + "TEMPLATE\n"@
}

/// One line of the table of machines.
pub open spec fn machine_row(m: Machine) -> Seq<char> {
    pad_end(m.name@, 20) + " "@ + pad_end(m.state@, 10) + " "@ + pad_start(
        number::digits(m.cpus as nat),
        4,
    ) + " "@ + pad_start(number::digits(m.memory_mb as nat), 6) + "MB "@ + template_cell(
        m.metadata@,
    ) + "\n"@
}

/// The lines of the table of machines.
pub open spec fn machine_rows(ms: Seq<Machine>) -> Seq<char>
    decreases ms.len(),
{
    if ms.len() == 0 {
        seq![]
    } else {
        machine_rows(ms.drop_last()) + machine_row(ms.last())
    }
}

/// The table of machines.
pub open spec fn machines_text(ms: Seq<Machine>) -> Seq<char> {
    if ms.len() == 0 {
        "no machines\n"@
    } else {
        machines_head() + machine_rows(ms)
    }
}

fn row_of_machine(m: &Machine) -> (s: String)
    requires
        m.metadata.wf(),
    ensures
        s@ == machine_row(*m),
{
    let mut s = left_cell(m.name.as_str(), 20);
    s.append(" ");
    put_left(&mut s, m.state.as_str(), 10);
    s.append(" ");
    put_right(&mut s, number::decimal(m.cpus as u64).as_str(), 4);
    s.append(" ");
    put_right(&mut s, number::decimal(m.memory_mb as u64).as_str(), 6);
    s.append("MB ");
    s.append(name_template(m));
    s.append("\n");
    s
}

/// The table of machines, as text.
pub fn render_machines(machines: &Vec<Machine>) -> (out: String)
    requires
        forall|i: int| 0 <= i < machines@.len() ==> (#[trigger] machines@[i]).metadata.wf(),
    ensures
        out@ == machines_text(machines@),
{
    if machines.len() == 0 {
        return "no machines\n".to_owned();
    }
    let mut out = left_cell("MACHINE", 20);
    out.append(" ");
    put_left(&mut out, "STATE", 10);
    out.append(" ");
    put_right(&mut out, "CPU", 4);
    out.append(" ");
    put_right(&mut out, "MEM", 8);
    out.append(" ");
    out.append("TEMPLATE\n");
    assert(machines_head() + machine_rows(machines@.take(0)) =~= machines_head());
    let mut i: usize = 0;
    while i < machines.len()
        invariant
            forall|k: int| 0 <= k < machines@.len() ==> (#[trigger] machines@[k]).metadata.wf(),
            i <= machines@.len(),
            out@ == machines_head() + machine_rows(machines@.take(i as int)),
        decreases machines@.len() - i,
    {
        let row = row_of_machine(&machines[i]);
        out.append(row.as_str());
        assert(machines@.take(i + 1).drop_last() =~= machines@.take(i as int));
        assert(out@ =~= machines_head() + machine_rows(machines@.take(i + 1)));
        i = i + 1;
    }
    assert(machines@.take(i as int) =~= machines@);
    out
}

// ---- status ----

/// The machine of a name: the last one of that name, if there are several.
pub open spec fn machine_named(ms: Seq<Machine>, name: Seq<char>) -> Option<Machine>
    decreases ms.len(),
{
    if ms.len() == 0 {
        None
    } else if ms.last().name@ == name {
        Some(ms.last())
    } else {
        machine_named(ms.drop_last(), name)
    }
}

fn find_machine<'a>(ms: &'a Vec<Machine>, name: &str) -> (r: Option<&'a Machine>)
    ensures
        match r {
            Some(m) => machine_named(ms@, name@) == Some(*m) && ms@.contains(*m),
            None => machine_named(ms@, name@) is None,
        },
{
    let mut i: usize = ms.len();
    assert(ms@.take(i as int) =~= ms@);
    while i > 0
        invariant
            i <= ms@.len(),
            machine_named(ms@, name@) == machine_named(ms@.take(i as int), name@),
        decreases i,
    {
        if text::same_str(ms[i - 1].name.as_str(), name) {
            assert(ms@.take(i as int).last() == ms@[i - 1]);
            return Some(&ms[i - 1]);
        }
        assert(ms@.take(i as int).drop_last() =~= ms@.take(i - 1));
        i = i - 1;
    }
    None
}

/// The line of a placed sandbox.
pub open spec fn placed_row(p: Placement, ms: Seq<Machine>) -> Seq<char> {
    match machine_named(ms, p.sandbox@) {
        Some(m) => "    - "@ + p.sandbox@ + "  ["@ + m.state@ + "]  "@ + number::digits(
            m.cpus as nat,
        ) + "cpu/"@ + number::digits(m.memory_mb as nat) + "MB  tmpl="@ + template_cell(
            m.metadata@,
        ) + "\n"@,
        None => "    - "@ + p.sandbox@ + "  (placed here but not in the machine list)\n"@,
    }
}

fn row_of_placed(p: &Placement, ms: &Vec<Machine>) -> (s: String)
    requires
        forall|k: int| 0 <= k < ms@.len() ==> (#[trigger] ms@[k]).metadata.wf(),
    ensures
        s@ == placed_row(*p, ms@),
{
    let mut s = "    - ".to_owned();
    s.append(p.sandbox.as_str());
    match find_machine(ms, p.sandbox.as_str()) {
        Some(m) => {
            s.append("  [");
            s.append(m.state.as_str());
            s.append("]  ");
            s.append(number::decimal(m.cpus as u64).as_str());
            s.append("cpu/");
            s.append(number::decimal(m.memory_mb as u64).as_str());
            s.append("MB  tmpl=");
            s.append(name_template(m));
            s.append("\n");
        },
        None => {
            s.append("  (placed here but not in the machine list)\n");
        },
    }
    s
}

/// The lines of the sandboxes placed on one backend.
pub open spec fn placed_rows(ps: Seq<Placement>, backend: Seq<char>, ms: Seq<Machine>) -> Seq<char>
    decreases ps.len(),
{
    if ps.len() == 0 {
        seq![]
    } else if ps.last().backend@ == backend {
        placed_rows(ps.drop_last(), backend, ms) + placed_row(ps.last(), ms)
    } else {
        placed_rows(ps.drop_last(), backend, ms)
    }
}

/// Whether some sandbox is placed on a backend.
pub open spec fn hosts_any(ps: Seq<Placement>, backend: Seq<char>) -> bool {
    exists|i: int| 0 <= i < ps.len() && (#[trigger] ps[i]).backend@ == backend
}

/// The line of a backend.
pub open spec fn status_line(b: Backend) -> Seq<char> {
    "● backend "@ + short_text(b.id@) + "  vms="@ + number::digits(b.capacity.running_vms as nat)
        + " cpu="@ + b.capacity.cpu_used@ + " mem_free="@ + number::digits(
        b.capacity.mem_available_mb as nat,
    ) + "MB "@ + path_name(b.direct_path) + " age="@ + secs_text(b.age_ms) + (
    if b.capacity.stalled {
        "  [STALLED]"@
    } else {
        ""@
    }) + "\n"@
}

fn line_of_backend(b: &Backend) -> (s: String)
    requires
        shortable(b.id@),
    ensures
        s@ == status_line(*b),
{
    let stalled: &str = if b.capacity.stalled {
        "  [STALLED]"
    } else {
        ""
    };
    let mut s = "● backend ".to_owned();
    s.append(short(b.id.as_str()).as_str());
    s.append("  vms=");
    s.append(number::decimal(b.capacity.running_vms).as_str());
    s.append(" cpu=");
    s.append(b.capacity.cpu_used.as_str());
    s.append(" mem_free=");
    s.append(number::decimal(b.capacity.mem_available_mb).as_str());
    s.append("MB ");
    s.append(name_path(b.direct_path));
    s.append(" age=");
    s.append(secs(b.age_ms).as_str());
    s.append(stalled);
    s.append("\n");
    s
}

/// A backend and the sandboxes placed on it.
pub open spec fn status_block(b: Backend, ps: Seq<Placement>, ms: Seq<Machine>) -> Seq<char> {
    status_line(b) + (if hosts_any(ps, b.id@) {
        placed_rows(ps, b.id@, ms)
    } else {
        "    (no placed sandboxes in the frontend registry)\n"@
    })
}

/// The backends and the sandboxes placed on them.
pub open spec fn status_blocks(bs: Seq<Backend>, ps: Seq<Placement>, ms: Seq<Machine>) -> Seq<char>
    decreases bs.len(),
{
    if bs.len() == 0 {
        seq![]
    } else {
        status_blocks(bs.drop_last(), ps, ms) + status_block(bs.last(), ps, ms)
    }
}

/// Whether a sandbox of this name is placed anywhere.
pub open spec fn is_placed(ps: Seq<Placement>, name: Seq<char>) -> bool {
    exists|i: int| 0 <= i < ps.len() && (#[trigger] ps[i]).sandbox@ == name
}

/// The lines of the machines that no backend is known to host.
pub open spec fn orphan_rows(ms: Seq<Machine>, ps: Seq<Placement>) -> Seq<char>
    decreases ms.len(),
{
    if ms.len() == 0 {
        seq![]
    } else if is_placed(ps, ms.last().name@) {
        orphan_rows(ms.drop_last(), ps)
    } else {
        orphan_rows(ms.drop_last(), ps) + ("    - "@ + ms.last().name@ + "  ["@ + ms.last().state@
            + "]\n"@)
    }
}

/// Whether some machine is hosted by no known backend.
pub open spec fn any_orphan(ms: Seq<Machine>, ps: Seq<Placement>) -> bool {
    exists|i: int| 0 <= i < ms.len() && !is_placed(ps, (#[trigger] ms[i]).name@)
}

/// The first line of the status.
pub open spec fn status_head(backends: nat, machines: nat) -> Seq<char> {
    "cluster — "@ + number::digits(backends) + " backend(s), "@ + number::digits(machines)
        + " machine(s)\n\n"@
}

/// The heading of the machines that no backend is known to host.
pub open spec fn orphan_head() -> Seq<char> {
    "\n⚠ machines not attributed to a backend (seen in the merged list, absent from the registry):\n"@
}

/// The status of the cluster: each backend with the sandboxes placed on it, then the
/// machines that no backend is known to host.
pub open spec fn status_text(bs: Seq<Backend>, ps: Seq<Placement>, ms: Seq<Machine>) -> Seq<char> {
    status_head(bs.len(), ms.len()) + (if bs.len() == 0 {
        "no backends connected\n"@
    } else {
        status_blocks(bs, ps, ms)
    }) + (if any_orphan(ms, ps) {
        orphan_head() + orphan_rows(ms, ps)
    } else {
        seq![]
    })
}

fn put_block(out: &mut String, b: &Backend, ps: &Vec<Placement>, ms: &Vec<Machine>)
    requires
        shortable(b.id@),
        forall|k: int| 0 <= k < ms@.len() ==> (#[trigger] ms@[k]).metadata.wf(),
    ensures
        final(out)@ == old(out)@ + status_block(*b, ps@, ms@),
{
    let ghost start = out@;
    let line = line_of_backend(b);
    out.append(line.as_str());
    let ghost mid = out@;
    let mut any: bool = false;
    let mut i: usize = 0;
    assert(out@ =~= mid + placed_rows(ps@.take(0), b.id@, ms@));
    while i < ps.len()
        invariant
            forall|k: int| 0 <= k < ms@.len() ==> (#[trigger] ms@[k]).metadata.wf(),
            i <= ps@.len(),
            any == hosts_any(ps@.take(i as int), b.id@),
            out@ == mid + placed_rows(ps@.take(i as int), b.id@, ms@),
        decreases ps@.len() - i,
    {
        let p = &ps[i];
        proof {
            let t = ps@.take(i as int);
            let u = ps@.take(i + 1);
            assert(u.drop_last() =~= t);
            assert(u.last() == ps@[i as int]);
            if hosts_any(t, b.id@) {
                let k = choose|k: int| 0 <= k < t.len() && (#[trigger] t[k]).backend@ == b.id@;
                assert(u[k].backend@ == b.id@);
            }
            if hosts_any(u, b.id@) {
                let k = choose|k: int| 0 <= k < u.len() && (#[trigger] u[k]).backend@ == b.id@;
                if k < i {
                    assert(t[k].backend@ == b.id@);
                }
            }
            assert(u[i as int] == ps@[i as int]);
        }
        if text::same_str(p.backend.as_str(), b.id.as_str()) {
            let row = row_of_placed(p, ms);
            out.append(row.as_str());
            any = true;
        }
        assert(out@ =~= mid + placed_rows(ps@.take(i + 1), b.id@, ms@));
        i = i + 1;
    }
    assert(ps@.take(i as int) =~= ps@);
    if !any {
        proof {
            lemma_nothing_placed(ps@, b.id@, ms@);
        }
        out.append("    (no placed sandboxes in the frontend registry)\n");
    }
    assert(out@ =~= start + status_block(*b, ps@, ms@));
}

proof fn lemma_nothing_placed(ps: Seq<Placement>, backend: Seq<char>, ms: Seq<Machine>)
    requires
        !hosts_any(ps, backend),
    ensures
        placed_rows(ps, backend, ms).len() == 0,
    decreases ps.len(),
{
    if ps.len() > 0 {
        assert(ps[ps.len() - 1].backend@ != backend);
        let t = ps.drop_last();
        assert(!hosts_any(t, backend)) by {
            if hosts_any(t, backend) {
                let k = choose|k: int| 0 <= k < t.len() && (#[trigger] t[k]).backend@ == backend;
                assert(ps[k].backend@ == backend);
            }
        }
        lemma_nothing_placed(t, backend, ms);
    }
}

fn placed(ps: &Vec<Placement>, name: &str) -> (r: bool)
    ensures
        r == is_placed(ps@, name@),
{
    let mut i: usize = 0;
    while i < ps.len()
        invariant
            i <= ps@.len(),
            forall|k: int| 0 <= k < i ==> (#[trigger] ps@[k]).sandbox@ != name@,
        decreases ps@.len() - i,
    {
        if text::same_str(ps[i].sandbox.as_str(), name) {
            assert(ps@[i as int].sandbox@ == name@);
            return true;
        }
        i = i + 1;
    }
    false
}

fn put_orphans(out: &mut String, ms: &Vec<Machine>, ps: &Vec<Placement>)
    ensures
        final(out)@ == old(out)@ + (if any_orphan(ms@, ps@) {
            orphan_head() + orphan_rows(ms@, ps@)
        } else {
            seq![]
        }),
{
    let ghost start = out@;
    let mut any: bool = false;
    let mut i: usize = 0;
    while i < ms.len()
        invariant
            i <= ms@.len(),
            any == any_orphan(ms@.take(i as int), ps@),
            out@ == (if any {
                start + orphan_head() + orphan_rows(ms@.take(i as int), ps@)
            } else {
                start
            }),
            !any ==> orphan_rows(ms@.take(i as int), ps@).len() == 0,
        decreases ms@.len() - i,
    {
        let m = &ms[i];
        let ghost t = ms@.take(i as int);
        let ghost u = ms@.take(i + 1);
        proof {
            assert(u.drop_last() =~= t);
            assert(u.last() == ms@[i as int]);
            if any_orphan(t, ps@) {
                let k = choose|k: int| 0 <= k < t.len() && !is_placed(ps@, (#[trigger] t[k]).name@);
                assert(!is_placed(ps@, u[k].name@));
            }
            if any_orphan(u, ps@) {
                let k = choose|k: int| 0 <= k < u.len() && !is_placed(ps@, (#[trigger] u[k]).name@);
                if k < i {
                    assert(!is_placed(ps@, t[k].name@));
                }
            }
            assert(u[i as int] == ms@[i as int]);
        }
        if !placed(ps, m.name.as_str()) {
            if !any {
                out.append(
                    "\n⚠ machines not attributed to a backend (seen in the merged list, absent from the registry):\n",
                );
                any = true;
                assert(out@ =~= start + orphan_head() + orphan_rows(t, ps@));
            }
            out.append("    - ");
            out.append(m.name.as_str());
            out.append("  [");
            out.append(m.state.as_str());
            out.append("]\n");
            assert(out@ =~= start + orphan_head() + orphan_rows(u, ps@));
        }
        i = i + 1;
    }
    assert(ms@.take(i as int) =~= ms@);
    assert(out@ =~= start + (if any_orphan(ms@, ps@) {
        orphan_head() + orphan_rows(ms@, ps@)
    } else {
        seq![]
    }));
}

/// The status of the cluster, as text.
pub fn render_status(
    backends: &Vec<Backend>,
    placements: &Vec<Placement>,
    machines: &Vec<Machine>,
) -> (out: String)
    requires
        forall|i: int| 0 <= i < backends@.len() ==> shortable((#[trigger] backends@[i]).id@),
        forall|i: int| 0 <= i < machines@.len() ==> (#[trigger] machines@[i]).metadata.wf(),
    ensures
        out@ == status_text(backends@, placements@, machines@),
{
    let mut out = String::new();
    out.append("cluster — ");
    out.append(number::decimal(backends.len() as u64).as_str());
    out.append(" backend(s), ");
    out.append(number::decimal(machines.len() as u64).as_str());
    out.append(" machine(s)\n\n");
    let ghost head = status_head(backends@.len(), machines@.len());
    assert(out@ =~= head);
    if backends.len() == 0 {
        out.append("no backends connected\n");
    }
    let ghost start = out@;
    let mut i: usize = 0;
    assert(out@ =~= start + status_blocks(backends@.take(0), placements@, machines@));
    while i < backends.len()
        invariant
            forall|k: int| 0 <= k < backends@.len() ==> shortable((#[trigger] backends@[k]).id@),
            forall|k: int| 0 <= k < machines@.len() ==> (#[trigger] machines@[k]).metadata.wf(),
            i <= backends@.len(),
            out@ == start + status_blocks(backends@.take(i as int), placements@, machines@),
        decreases backends@.len() - i,
    {
        put_block(&mut out, &backends[i], placements, machines);
        assert(backends@.take(i + 1).drop_last() =~= backends@.take(i as int));
        i = i + 1;
        assert(out@ =~= start + status_blocks(
            backends@.take(i as int),
            placements@,
            machines@,
        ));
    }
    assert(backends@.take(i as int) =~= backends@);
    put_orphans(&mut out, machines, placements);
    assert(out@ =~= status_text(backends@, placements@, machines@));
    out
}

}
