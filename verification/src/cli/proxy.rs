//! An e2b-style preview reverse proxy: what it decides.
//!
//! Maps `<guestPort>-<sandboxId>.<anything>` hostnames to a sandbox's published port
//! and forwards to it. Everything after the first dot of the Host header is ignored,
//! so any domain can front it. A request to a paused sandbox resumes it first, then
//! forwards.
//!
//! The proxy reaches the guest through the sandbox's published host port: it asks the
//! serve API for the machine, finds the host port mapped to the requested guest port,
//! and tunnels to that port. One hostname can also be proxied straight to the serve
//! API, so that a single public endpoint fronts both.
//!
//! Times are nanoseconds of a clock that never runs backwards.

use crate::bytes;
use crate::membership;
use crate::number;
use crate::table::Table;
use crate::text;
use std::path::PathBuf;
use vstd::prelude::*;
use vstd::slice::slice_subrange;
use vstd::string::*;
use vstd::utf8::*;

verus! {

/// Most bytes of a request head: 64 KiB.
pub const MAX_HEAD_BYTES: usize = 65536;

/// Most bytes read of a request that is only redirected: 16 KiB.
pub const REDIRECT_HEAD_BYTES: usize = 16384;

/// How long a resumed sandbox may take to become ready: one minute.
pub const RESUME_READY_TIMEOUT: u64 = 60_000_000_000;

/// How long to wait between two looks at a resuming sandbox: a quarter second.
pub const RESUME_POLL_INTERVAL: u64 = 250_000_000;

/// Minimum spacing between auto-idle refreshes for one sandbox: fifteen seconds. Far
/// below any sane idle window, so live traffic keeps a sandbox up without a write per
/// request.
pub const TOUCH_INTERVAL: u64 = 15_000_000_000;

// ---- configuration ----

/// The options of the proxy.
#[derive(Debug)]
pub struct ProxyCmd {
    /// Address to listen on for inbound HTTP.
    pub listen: String,
    /// The serve API used to resolve and resume sandboxes: `unix:///path/to.sock` or
    /// `http://host:port`.
    pub serve: Option<String>,
    /// Bearer token for the serve API, if it requires one.
    pub api_key: Option<String>,
    /// Resume a paused sandbox when a request arrives.
    pub auto_resume: bool,
    /// Host the published ports are bound on.
    pub upstream_host: Option<String>,
    /// Certificate chain to terminate TLS with.
    pub tls_cert: Option<PathBuf>,
    /// Private key for `tls_cert`.
    pub tls_key: Option<PathBuf>,
    /// Hostname that is proxied to the serve API instead of a sandbox preview.
    pub api_host: Option<String>,
    /// Also bind this plain-HTTP address and redirect every request to `https://`.
    pub redirect_http: Option<String>,
}

/// The settings that stand in for options not given.
#[derive(Debug)]
pub struct ProxyEnv {
    /// The serve API.
    pub api_url: Option<String>,
    /// The host of the published ports.
    pub publish_addr: Option<String>,
    /// The directory of the user's runtime files.
    pub runtime_dir: Option<String>,
}

/// How to reach the serve API: a Unix socket or a TCP host:port.
#[derive(Debug)]
pub enum ServeTarget {
    Unix(String),
    Tcp(String),
}

/// The serve API that a URL names, with the text of its place: a socket path after
/// `unix://`, a host and port after `http://`, trailing slashes dropped.
pub open spec fn serve_place(url: Seq<char>) -> Option<(bool, Seq<char>)> {
    if "unix://"@.is_prefix_of(url) {
        Some((true, url.skip("unix://"@.len() as int)))
    } else if "http://"@.is_prefix_of(url) {
        Some((false, text::trim_end_char(url.skip("http://"@.len() as int), '/')))
    } else {
        None
    }
}

/// Whether `t` is the serve API at a place.
pub open spec fn is_target(t: ServeTarget, place: (bool, Seq<char>)) -> bool {
    match t {
        ServeTarget::Unix(p) => place.0 && p@ == place.1,
        ServeTarget::Tcp(p) => !place.0 && p@ == place.1,
    }
}

/// The message for a URL that names no serve API.
pub open spec fn unsupported_text(url: Seq<char>) -> Seq<char> {
    "unsupported --serve URL '"@ + url + "' (use unix:///path or http://host:port)"@
}

impl ServeTarget {
    /// The serve API that a URL names, or the message for one that names none.
    pub fn parse(url: &str) -> (r: Result<ServeTarget, String>)
        ensures
            match r {
                Ok(t) => serve_place(url@) is Some && is_target(t, serve_place(url@)->0),
                Err(m) => serve_place(url@) is None && m@ == unsupported_text(url@),
            },
    {
        let c = text::chars_of(url);
        let unix = text::chars_of("unix://");
        let http = text::chars_of("http://");
        if text::begins_with(c.as_slice(), unix.as_slice()) {
            let rest = slice_subrange(c.as_slice(), unix.len(), c.len());
            Ok(ServeTarget::Unix(text::string_of(rest)))
        } else if text::begins_with(c.as_slice(), http.as_slice()) {
            let rest = slice_subrange(c.as_slice(), http.len(), c.len());
            Ok(ServeTarget::Tcp(text::string_of(text::strip_end_char(rest, '/'))))
        } else {
            let mut m = String::new();
            m.append("unsupported --serve URL '");
            m.append(url);
            m.append("' (use unix:///path or http://host:port)");
            assert(m@ =~= unsupported_text(url@));
            Err(m)
        }
    }
}

/// The serve API where nothing names one: the socket in the runtime directory, or a
/// local port where there is no such directory.
pub open spec fn default_url(runtime_dir: Option<Seq<char>>) -> Seq<char> {
    match runtime_dir {
        Some(d) => "unix://"@ + d + "/smolvm.sock"@,
        None => "http://127.0.0.1:8080"@,
    }
}

/// The serve API where nothing names one.
pub fn default_serve_url(runtime_dir: &Option<String>) -> (s: String)
    ensures
        s@ == default_url(text::opt(*runtime_dir)),
{
    match runtime_dir {
        Some(d) => {
            let mut s = String::new();
            s.append("unix://");
            s.append(d.as_str());
            s.append("/smolvm.sock");
            assert(s@ =~= default_url(Some(d@)));
            s
        },
        None => "http://127.0.0.1:8080".to_owned(),
    }
}

/// An option, or the setting that stands in for it, or a default.
pub open spec fn given(
    option: Option<Seq<char>>,
    setting: Option<Seq<char>>,
    default: Seq<char>,
) -> Seq<char> {
    match option {
        Some(s) => s,
        None => match setting {
            Some(s) => s,
            None => default,
        },
    }
}

fn pick_given(option: &Option<String>, setting: &Option<String>, default: String) -> (r: String)
    ensures
        r@ == given(text::opt(*option), text::opt(*setting), default@),
{
    match option {
        Some(s) => s.as_str().to_owned(),
        None => match setting {
            Some(s) => s.as_str().to_owned(),
            None => default,
        },
    }
}

/// What the proxy knows while it runs.
pub struct ProxyConfig {
    pub serve: ServeTarget,
    pub api_key: Option<String>,
    pub auto_resume: bool,
    pub upstream_host: String,
    /// Hostname routed to the serve API instead of a preview.
    pub api_host: Option<String>,
    /// Per sandbox, the time of the last auto-idle refresh.
    pub last_touch: Table<String, u64>,
}

/// What the proxy starts.
pub struct ProxyPlan {
    pub config: ProxyConfig,
    /// The plain-HTTP address to redirect from.
    pub redirect: Option<String>,
    /// Whether TLS is terminated on the listen port.
    pub tls: bool,
}

impl ProxyCmd {
    /// The URL of the serve API: the option, the setting, or the default.
    pub open spec fn serve_url(&self, env: &ProxyEnv) -> Seq<char> {
        given(text::opt(self.serve), text::opt(env.api_url), default_url(text::opt(env.runtime_dir)))
    }

    /// Works out what to serve from the options and the settings. Fails where the URL of
    /// the serve API names none.
    pub fn serve_forever(&self, env: &ProxyEnv) -> (r: Result<ProxyPlan, String>)
        ensures
            match r {
                Ok(p) => {
                    &&& serve_place(self.serve_url(env)) is Some
                    &&& is_target(p.config.serve, serve_place(self.serve_url(env))->0)
                    &&& text::opt(p.config.api_key) == text::opt(self.api_key)
                    &&& p.config.auto_resume == self.auto_resume
                    &&& p.config.upstream_host@ == given(
                        text::opt(self.upstream_host),
                        text::opt(env.publish_addr),
                        "127.0.0.1"@,
                    )
                    &&& text::opt(p.config.api_host) == text::opt(self.api_host)
                    &&& p.config.last_touch.wf()
                    &&& p.config.last_touch@ == Map::<Seq<char>, u64>::empty()
                    &&& text::opt(p.redirect) == text::opt(self.redirect_http)
                    &&& p.tls == (self.tls_cert is Some && self.tls_key is Some)
                },
                Err(m) => {
                    &&& serve_place(self.serve_url(env)) is None
                    &&& m@ == unsupported_text(self.serve_url(env))
                },
            },
    {
        let url = pick_given(&self.serve, &env.api_url, default_serve_url(&env.runtime_dir));
        let host = pick_given(&self.upstream_host, &env.publish_addr, "127.0.0.1".to_owned());
        match ServeTarget::parse(url.as_str()) {
            Ok(serve) => {
                let config = ProxyConfig {
                    serve,
                    api_key: text::copy_opt(&self.api_key),
                    auto_resume: self.auto_resume,
                    upstream_host: host,
                    api_host: text::copy_opt(&self.api_host),
                    last_touch: Table::new(),
                };
                let tls = match (&self.tls_cert, &self.tls_key) {
                    (Some(_), Some(_)) => true,
                    _ => false,
                };
                Ok(ProxyPlan { config, redirect: text::copy_opt(&self.redirect_http), tls })
            },
            Err(m) => Err(m),
        }
    }
}

// ---- reading a request head ----

/// The host without a port: what stands before the last colon, where only digits follow
/// it. A colon inside an IPv6 address takes nothing off.
pub open spec fn without_port(v: Seq<char>) -> Seq<char> {
    match text::rsplit_once(v, ':') {
        Some((h, port)) => if number::all_digits(port) {
            h
        } else {
            v
        },
        None => v,
    }
}

fn only_digits(s: &[char]) -> (r: bool)
    ensures
        r == number::all_digits(s@),
{
    let mut i: usize = 0;
    while i < s.len()
        invariant
            i <= s@.len(),
            forall|j: int| 0 <= j < i ==> number::is_digit(#[trigger] s@[j]),
        decreases s@.len() - i,
    {
        if !('0' <= s[i] && s[i] <= '9') {
            assert(!number::is_digit(s@[i as int]));
            return false;
        }
        i = i + 1;
    }
    true
}

/// The host without a port.
pub fn strip_port(v: &[char]) -> (h: &[char])
    ensures
        h@ == without_port(v@),
{
    match text::rcut(v, ':') {
        Some((h, port)) => if only_digits(port) {
            h
        } else {
            v
        },
        None => v,
    }
}

/// The host that a line names, if it is a Host header.
pub open spec fn host_in_line(line: Seq<char>) -> Option<Seq<char>> {
    match text::split_once(line, ':') {
        Some((name, value)) => if text::lower(text::trim(name)) == text::lower("host"@) {
            Some(without_port(text::trim(value)))
        } else {
            None
        },
        None => None,
    }
}

/// The host that the first Host header among some lines names.
pub open spec fn first_host(ls: Seq<Seq<char>>) -> Option<Seq<char>>
    decreases ls.len(),
{
    if ls.len() == 0 {
        None
    } else {
        match host_in_line(ls[0]) {
            Some(h) => Some(h),
            None => first_host(ls.drop_first()),
        }
    }
}

/// The host that the text of a request head names.
pub fn host_in(head: &[char]) -> (r: Option<String>)
    ensures
        text::opt(r) == first_host(text::lines(head@)),
{
    let want = text::chars_of("host");
    let mut rest: &[char] = head;
    let mut more: bool = true;
    while more
        invariant
            want@ == "host"@,
            first_host(text::lines(head@)) == (if more {
                first_host(text::lines(rest@))
            } else {
                None
            }),
        decreases
                rest@.len() + (if more {
                    1int
                } else {
                    0int
                }),
    {
        let k: usize = text::find_crlf(rest);
        let line = slice_subrange(rest, 0, k);
        proof {
            text::lemma_lines_step(rest@);
            reveal_with_fuel(first_host, 2);
            assert(line@ =~= rest@.take(k as int));
        }
        match text::cut(line, ':') {
            Some((name, value)) => {
                if text::same_ignoring_case(text::strip(name), want.as_slice()) {
                    return Some(text::string_of(strip_port(text::strip(value))));
                }
            },
            None => {},
        }
        if k < rest.len() {
            rest = slice_subrange(rest, k + 2, rest.len());
        } else {
            more = false;
        }
    }
    None
}

/// The Host header value (without any `:port`) of a raw request head.
pub fn extract_host(head: &[u8]) -> (r: Option<String>)
    ensures
        text::opt(r) == first_host(text::lines(bytes::utf8_lossy(head@))),
{
    let c = bytes::lossy_chars(head);
    host_in(c.as_slice())
}

/// The guest port and the sandbox id that a host names: `<guestPort>-<sandboxId>`,
/// everything after the first dot ignored. The id may itself hold dashes.
pub open spec fn preview_of(host: Seq<char>) -> Option<(nat, Seq<char>)> {
    match text::split_once(text::before(host, '.'), '-') {
        Some((port, id)) => match number::parse(port, u16::MAX as nat) {
            Some(n) => if id.len() == 0 {
                None
            } else {
                Some((n, id))
            },
            None => None,
        },
        None => None,
    }
}

/// The guest port and the sandbox id that a host names.
pub fn parse_preview_host(host: &str) -> (r: Option<(u16, String)>)
    ensures
        match r {
            Some((port, id)) => preview_of(host@) == Some((port as nat, id@)),
            None => preview_of(host@) is None,
        },
{
    let c = text::chars_of(host);
    match text::cut(text::take_before(c.as_slice(), '.'), '-') {
        Some((port, id)) => match number::parse_number(port, u16::MAX as u64) {
            Some(n) => {
                if id.len() == 0 {
                    None
                } else {
                    Some((n as u16, text::string_of(id)))
                }
            },
            None => None,
        },
        None => None,
    }
}

/// Whether a host is `want`, whatever its case and its port.
pub open spec fn host_is(host: Seq<char>, want: Seq<char>) -> bool {
    text::lower(without_port(host)) == text::lower(want)
}

/// Case-insensitive host match, ignoring any `:port` suffix.
pub fn host_eq(host: &str, want: &str) -> (r: bool)
    ensures
        r == host_is(host@, want@),
{
    let h = text::chars_of(host);
    let w = text::chars_of(want);
    text::same_ignoring_case(strip_port(h.as_slice()), w.as_slice())
}

/// The target of a request line: its second word, or `/`.
pub open spec fn target_of(line: Seq<char>) -> Seq<char> {
    match text::nth_word(line, 1) {
        Some(w) => w,
        None => "/"@,
    }
}

/// The target that the text of a request line names.
pub fn target_in(line: &[char]) -> (s: String)
    ensures
        s@ == target_of(line@),
{
    match text::word_at(line, 1) {
        Some(w) => text::string_of(w),
        None => "/".to_owned(),
    }
}

/// The request target (path) from the first line of a head, defaulting to `/`.
pub fn extract_target(head: &[u8]) -> (s: String)
    ensures
        s@ == target_of(bytes::utf8_lossy(bytes::first_line(head@))),
{
    let c = bytes::lossy_chars(bytes::take_first_line(head));
    target_in(c.as_slice())
}

// ---- replies ----

/// The reason phrase of a status.
pub open spec fn reason_of(status: u16) -> Seq<char> {
    if status == 400 {
        "Bad Request"@
    } else if status == 404 {
        "Not Found"@
    } else if status == 409 {
        "Conflict"@
    } else if status == 431 {
        "Request Header Fields Too Large"@
    } else if status == 502 {
        "Bad Gateway"@
    } else {
        "Error"@
    }
}

/// The body of a plain reply.
pub open spec fn reply_body(status: u16, message: Seq<char>) -> Seq<char> {
    number::digits(status as nat) + " "@ + reason_of(status) + ": "@ + message + "\n"@
}

/// The text of a plain reply.
pub open spec fn reply_text(status: u16, message: Seq<char>) -> Seq<char> {
    "HTTP/1.1 "@ + number::digits(status as nat) + " "@ + reason_of(status)
        + "\r\ncontent-type: text/plain\r\ncontent-length: "@ + number::digits(
        encode_utf8(reply_body(status, message)).len(),
    ) + "\r\nconnection: close\r\n\r\n"@ + reply_body(status, message)
}

/// The bytes of a plain reply.
pub fn reply(status: u16, message: &str) -> (out: Vec<u8>)
    ensures
        out@ == encode_utf8(reply_text(status, message@)),
{
    let reason: &str = if status == 400 {
        "Bad Request"
    } else if status == 404 {
        "Not Found"
    } else if status == 409 {
        "Conflict"
    } else if status == 431 {
        "Request Header Fields Too Large"
    } else if status == 502 {
        "Bad Gateway"
    } else {
        "Error"
    };
    let code = number::decimal(status as u64);
    let mut body = String::new();
    body.append(code.as_str());
    body.append(" ");
    body.append(reason);
    body.append(": ");
    body.append(message);
    body.append("\n");
    assert(body@ =~= reply_body(status, message@));
    let n = bytes::bytes_of(body.as_str()).len();
    let mut s = String::new();
    s.append("HTTP/1.1 ");
    s.append(code.as_str());
    s.append(" ");
    s.append(reason);
    s.append("\r\ncontent-type: text/plain\r\ncontent-length: ");
    s.append(number::decimal(n as u64).as_str());
    s.append("\r\nconnection: close\r\n\r\n");
    s.append(body.as_str());
    assert(s@ =~= reply_text(status, message@));
    bytes::bytes_of(s.as_str())
}

/// Whether the bytes read so far are enough to redirect.
pub fn redirect_ready(head: &[u8]) -> (r: bool)
    ensures
        r == (bytes::position(head@, bytes::blank_line()) is Some || head@.len()
            >= REDIRECT_HEAD_BYTES),
{
    match bytes::find_blank_line(head) {
        Some(_) => true,
        None => head.len() >= REDIRECT_HEAD_BYTES,
    }
}

/// The text that redirects a request for a host and a target to `https://`.
pub open spec fn redirect_text(host: Option<Seq<char>>, target: Seq<char>) -> Seq<char> {
    let body = "Redirecting to HTTPS.\n"@;
    "HTTP/1.1 301 Moved Permanently\r\nLocation: https://"@ + (match host {
        Some(h) => h,
        None => seq![],
    }) + target + "\r\nContent-Length: "@ + number::digits(encode_utf8(body).len())
        + "\r\nConnection: close\r\n\r\n"@ + body
}

/// The bytes that redirect a request for a host and a target.
pub fn redirect_to(host: Option<String>, target: &str) -> (out: Vec<u8>)
    ensures
        out@ == encode_utf8(redirect_text(text::opt(host), target@)),
{
    let body = "Redirecting to HTTPS.\n";
    let n = bytes::bytes_of(body).len();
    let mut s = String::new();
    s.append("HTTP/1.1 301 Moved Permanently\r\nLocation: https://");
    match &host {
        Some(h) => {
            s.append(h.as_str());
        },
        None => {},
    }
    s.append(target);
    s.append("\r\nContent-Length: ");
    s.append(number::decimal(n as u64).as_str());
    s.append("\r\nConnection: close\r\n\r\n");
    s.append(body);
    assert(s@ =~= redirect_text(text::opt(host), target@));
    bytes::bytes_of(s.as_str())
}

/// The bytes that redirect a request, given its head.
pub fn run_redirect(head: &[u8]) -> (out: Vec<u8>)
    ensures
        out@ == encode_utf8(
            redirect_text(
                first_host(text::lines(bytes::utf8_lossy(head@))),
                target_of(bytes::utf8_lossy(bytes::first_line(head@))),
            ),
        ),
{
    let host = extract_host(head);
    let target = extract_target(head);
    redirect_to(host, target.as_str())
}

// ---- routing ----

/// What the bytes of a request head call for.
#[derive(Clone, Copy, PartialEq, Eq, Structural, Debug)]
pub enum HeadStep {
    /// The head is complete.
    Complete,
    /// The head is too large.
    TooLarge,
    /// More bytes have to arrive.
    Read,
}

/// Looks at the bytes of a request head read so far.
pub fn head_step(head: &[u8]) -> (r: HeadStep)
    ensures
        r == (if bytes::position(head@, bytes::blank_line()) is Some {
            HeadStep::Complete
        } else if head@.len() > MAX_HEAD_BYTES {
            HeadStep::TooLarge
        } else {
            HeadStep::Read
        }),
{
    match bytes::find_blank_line(head) {
        Some(_) => HeadStep::Complete,
        None => if head.len() > MAX_HEAD_BYTES {
            HeadStep::TooLarge
        } else {
            HeadStep::Read
        },
    }
}

/// Where a connection goes.
#[derive(Debug)]
pub enum ConnStep {
    /// To the serve API.
    Serve,
    /// To this port of this sandbox.
    Preview { port: u16, id: String },
    /// Nowhere: answer with this status and message.
    Reply { status: u16, message: String },
}

/// Whether `step` is where a request for `host` goes, where `api_host` is proxied to
/// the serve API.
pub open spec fn is_routed(
    step: ConnStep,
    host: Option<Seq<char>>,
    api_host: Option<Seq<char>>,
) -> bool {
    match host {
        None => step is Reply && step->status == 400 && step->message@ == "missing Host header"@,
        Some(h) => if api_host is Some && host_is(h, api_host->0) {
            step is Serve
        } else {
            match preview_of(h) {
                Some((port, id)) => step is Preview && step->port == port && step->id@ == id,
                None => step is Reply && step->status == 404 && step->message@
                    == "host must be <port>-<sandboxId>.<domain>"@,
            }
        },
    }
}

/// Where a request for a host goes.
pub fn route_host(host: Option<String>, api_host: &Option<String>) -> (step: ConnStep)
    ensures
        is_routed(step, text::opt(host), text::opt(*api_host)),
{
    match host {
        None => ConnStep::Reply { status: 400, message: "missing Host header".to_owned() },
        Some(h) => {
            let api = match api_host {
                Some(a) => host_eq(h.as_str(), a.as_str()),
                None => false,
            };
            if api {
                return ConnStep::Serve;
            }
            match parse_preview_host(h.as_str()) {
                Some((port, id)) => ConnStep::Preview { port, id },
                None => ConnStep::Reply {
                    status: 404,
                    message: "host must be <port>-<sandboxId>.<domain>".to_owned(),
                },
            }
        },
    }
}

/// Why no upstream was found.
#[derive(Debug)]
pub enum RouteError {
    NotFound,
    Paused,
    PortNotPublished,
    Upstream(String),
}

/// The status and the message that answer a request without an upstream.
pub open spec fn route_reply(e: RouteError) -> (u16, Seq<char>) {
    match e {
        RouteError::NotFound => (404, "sandbox not found"@),
        RouteError::Paused => (409, "sandbox is paused (auto-resume disabled)"@),
        RouteError::PortNotPublished => (502, "requested port is not published by this sandbox"@),
        RouteError::Upstream(_) => (502, "failed to resolve sandbox"@),
    }
}

impl RouteError {
    /// The status and the message that answer the request.
    pub fn reply(&self) -> (r: (u16, &'static str))
        ensures
            (r.0, r.1@) == route_reply(*self),
    {
        match self {
            RouteError::NotFound => (404, "sandbox not found"),
            RouteError::Paused => (409, "sandbox is paused (auto-resume disabled)"),
            RouteError::PortNotPublished => (
                502,
                "requested port is not published by this sandbox",
            ),
            RouteError::Upstream(_) => (502, "failed to resolve sandbox"),
        }
    }
}

/// Why a request goes no further, other than by its host.
#[derive(Clone, Copy, PartialEq, Eq, Structural, Debug)]
pub enum Refusal {
    /// The head is too large.
    HeadTooLarge,
    /// The serve API does not take the connection.
    ServeUnreachable,
    /// The published port does not take the connection.
    SandboxUnreachable,
}

/// The status and the message that answer a refused request.
pub open spec fn refusal_reply(r: Refusal) -> (u16, Seq<char>) {
    match r {
        Refusal::HeadTooLarge => (431, "request header too large"@),
        Refusal::ServeUnreachable => (502, "control API is not reachable"@),
        Refusal::SandboxUnreachable => (502, "sandbox service is not reachable"@),
    }
}

impl Refusal {
    /// The status and the message that answer the request.
    pub fn reply(&self) -> (r: (u16, &'static str))
        ensures
            (r.0, r.1@) == refusal_reply(*self),
    {
        match self {
            Refusal::HeadTooLarge => (431, "request header too large"),
            Refusal::ServeUnreachable => (502, "control API is not reachable"),
            Refusal::SandboxUnreachable => (502, "sandbox service is not reachable"),
        }
    }
}

impl ProxyConfig {
    /// Decides on a connection from its complete request head. The head is replayed to
    /// where the connection goes.
    pub fn handle_conn(&self, head: &[u8]) -> (step: ConnStep)
        ensures
            is_routed(
                step,
                first_host(text::lines(bytes::utf8_lossy(head@))),
                text::opt(self.api_host),
            ),
    {
        route_host(extract_host(head), &self.api_host)
    }

    /// The address of a published port.
    pub fn upstream_addr(&self, host_port: u16) -> (s: String)
        ensures
            s@ == self.upstream_host@ + ":"@ + number::digits(host_port as nat),
    {
        let mut s = String::new();
        s.append(self.upstream_host.as_str());
        s.append(":");
        s.append(number::decimal(host_port as u64).as_str());
        assert(s@ =~= self.upstream_host@ + ":"@ + number::digits(host_port as nat));
        s
    }
}

// ---- the serve API ----

/// Whether a byte passes into a path segment as it is.
pub open spec fn unreserved(b: u8) -> bool {
    ||| 0x41 <= b <= 0x5a
    ||| 0x61 <= b <= 0x7a
    ||| 0x30 <= b <= 0x39
    ||| b == 0x2d
    ||| b == 0x5f
    ||| b == 0x2e
    ||| b == 0x7e
}

/// How a byte is written in a path segment.
pub open spec fn escaped(b: u8) -> Seq<char> {
    if unreserved(b) {
        seq![b as char]
    } else {
        seq!['%', number::hex_char_upper(b as int / 16), number::hex_char_upper(b as int % 16)]
    }
}

/// How bytes are written in a path segment.
pub open spec fn all_escaped(b: Seq<u8>) -> Seq<char>
    decreases b.len(),
{
    if b.len() == 0 {
        seq![]
    } else {
        all_escaped(b.drop_last()) + escaped(b.last())
    }
}

/// Writes a sandbox id as a path segment: letters, digits and `-_.~` pass, every other
/// byte is percent-encoded.
pub fn urlencode(s: &str) -> (out: String)
    ensures
        out@ == all_escaped(encode_utf8(s@)),
{
    let b = bytes::bytes_of(s);
    let mut out = String::new();
    let mut i: usize = 0;
    while i < b.len()
        invariant
            i <= b@.len(),
            out@ == all_escaped(b@.take(i as int)),
        decreases b@.len() - i,
    {
        let x: u8 = b[i];
        proof {
            assert(b@.take(i + 1).drop_last() =~= b@.take(i as int));
        }
        let ghost was = out@;
        if (0x41 <= x && x <= 0x5a) || (0x61 <= x && x <= 0x7a) || (0x30 <= x && x <= 0x39) || x
            == 0x2d || x == 0x5f || x == 0x2e || x == 0x7e {
            text::push_char(&mut out, x as char);
            assert(out@ =~= was + escaped(x));
        } else {
            text::push_char(&mut out, '%');
            text::push_char(&mut out, number::to_hex_char_upper(x / 16));
            text::push_char(&mut out, number::to_hex_char_upper(x % 16));
            assert(out@ =~= was + escaped(x));
        }
        i = i + 1;
    }
    assert(b@.take(i as int) =~= b@);
    out
}

/// The path of a machine in the serve API, with what follows its name.
pub open spec fn machine_path(id: Seq<char>, tail: Seq<char>) -> Seq<char> {
    "/api/v1/machines/"@ + all_escaped(encode_utf8(id)) + tail
}

fn path_of_machine(id: &str, tail: &str) -> (s: String)
    ensures
        s@ == machine_path(id@, tail@),
{
    let mut s = String::new();
    s.append("/api/v1/machines/");
    s.append(urlencode(id).as_str());
    s.append(tail);
    assert(s@ =~= machine_path(id@, tail@));
    s
}

/// The head of a request to the serve API.
pub open spec fn api_head(
    key: Option<Seq<char>>,
    method: Seq<char>,
    path: Seq<char>,
    body_len: Option<nat>,
) -> Seq<char> {
    method + " "@ + path
        + " HTTP/1.1\r\nHost: localhost\r\nConnection: close\r\naccept: application/json\r\n"@ + (
    match key {
        Some(k) => "authorization: Bearer "@ + k + "\r\n"@,
        None => seq![],
    }) + (match body_len {
        Some(n) => "content-type: application/json\r\ncontent-length: "@ + number::digits(n)
            + "\r\n\r\n"@,
        None => "\r\n"@,
    })
}

impl ProxyConfig {
    /// The bytes of one request to the serve API. The connection is closed after it, so
    /// the end of the stream ends the reply.
    pub fn serve_api(&self, method: &str, path: &str, body: Option<&[u8]>) -> (out: Vec<u8>)
        ensures
            match body {
                Some(b) => out@ == encode_utf8(
                    api_head(text::opt(self.api_key), method@, path@, Some(b@.len())),
                ) + b@,
                None => out@ == encode_utf8(
                    api_head(text::opt(self.api_key), method@, path@, None),
                ),
            },
    {
        let mut s = String::new();
        s.append(method);
        s.append(" ");
        s.append(path);
        s.append(
            " HTTP/1.1\r\nHost: localhost\r\nConnection: close\r\naccept: application/json\r\n",
        );
        match &self.api_key {
            Some(k) => {
                s.append("authorization: Bearer ");
                s.append(k.as_str());
                s.append("\r\n");
            },
            None => {},
        }
        match body {
            Some(b) => {
                s.append("content-type: application/json\r\ncontent-length: ");
                s.append(number::decimal(b.len() as u64).as_str());
                s.append("\r\n\r\n");
                assert(s@ =~= api_head(text::opt(self.api_key), method@, path@, Some(b@.len())));
                let mut out = bytes::bytes_of(s.as_str());
                bytes::append_bytes(&mut out, b);
                out
            },
            None => {
                s.append("\r\n");
                assert(s@ =~= api_head(text::opt(self.api_key), method@, path@, None));
                bytes::bytes_of(s.as_str())
            },
        }
    }
}

/// What is wrong with a reply of the serve API.
#[derive(Clone, Copy, PartialEq, Eq, Structural, Debug)]
pub enum ResponseError {
    /// There is no blank line.
    Malformed,
    /// The first line holds no status code.
    NoStatus,
}

impl ResponseError {
    /// The message of the error.
    pub open spec fn spec_message(&self) -> Seq<char> {
        match self {
            ResponseError::Malformed => "malformed HTTP response from serve"@,
            ResponseError::NoStatus => "no status code in serve response"@,
        }
    }

    /// The message of the error.
    pub fn message(&self) -> (s: &'static str)
        ensures
            s@ == self.spec_message(),
    {
        match self {
            ResponseError::Malformed => "malformed HTTP response from serve",
            ResponseError::NoStatus => "no status code in serve response",
        }
    }
}

/// The status code in a status line: its second word.
pub open spec fn status_in_line(line: Seq<char>) -> Option<nat> {
    match text::nth_word(line, 1) {
        Some(w) => number::parse(w, u16::MAX as nat),
        None => None,
    }
}

/// The status code in the text of a status line.
pub fn status_in(line: &[char]) -> (r: Option<u16>)
    ensures
        match r {
            Some(n) => status_in_line(line@) == Some(n as nat),
            None => status_in_line(line@) is None,
        },
{
    match text::word_at(line, 1) {
        Some(w) => match number::parse_number(w, u16::MAX as u64) {
            Some(n) => Some(n as u16),
            None => None,
        },
        None => None,
    }
}

/// Parts a reply of the serve API into its status code and its body.
pub fn parse_http_response(b: &[u8]) -> (r: Result<(u16, Vec<u8>), ResponseError>)
    ensures
        match bytes::position(b@, bytes::blank_line()) {
            None => r == Err::<(u16, Vec<u8>), ResponseError>(ResponseError::Malformed),
            Some(k) => match status_in_line(bytes::utf8_lossy(bytes::raw_line(b@.take(k)))) {
                None => r == Err::<(u16, Vec<u8>), ResponseError>(ResponseError::NoStatus),
                Some(n) => r is Ok && r->Ok_0.0 == n && r->Ok_0.1@ == b@.skip(k + 4),
            },
        },
{
    proof {
        bytes::lemma_position(b@, bytes::blank_line());
    }
    match bytes::find_blank_line(b) {
        None => Err(ResponseError::Malformed),
        Some(k) => {
            assert(k + 4 <= b@.len());
            assert(b@.len() == b.len());
            let head = slice_subrange(b, 0, k);
            assert(head@ =~= b@.take(k as int));
            let c = bytes::lossy_chars(bytes::take_raw_line(head));
            match status_in(c.as_slice()) {
                Some(n) => {
                    let body = slice_subrange(b, k + 4, b.len());
                    assert(body@ =~= b@.skip(k + 4));
                    Ok((n, vstd::slice::slice_to_vec(body)))
                },
                None => Err(ResponseError::NoStatus),
            }
        },
    }
}

// ---- auto-idle refreshes ----

/// Whether a refresh of `id` is due at `now`.
pub open spec fn touch_due(m: Map<Seq<char>, u64>, id: Seq<char>, now: u64) -> bool {
    m.contains_key(id) ==> membership::elapsed(now, m[id]) >= TOUCH_INTERVAL
}

impl ProxyConfig {
    /// Whether `self` differs from `other` in nothing but the refreshes.
    pub open spec fn same_but_touches(&self, other: &ProxyConfig) -> bool {
        &&& self.serve == other.serve
        &&& self.api_key == other.api_key
        &&& self.auto_resume == other.auto_resume
        &&& self.upstream_host == other.upstream_host
        &&& self.api_host == other.api_host
    }

    /// A request counts as activity: gives the path to post to where a refresh of the
    /// sandbox's auto-idle deadline is due, and notes it.
    pub fn maybe_touch(&mut self, id: &str, now: u64) -> (r: Option<String>)
        requires
            old(self).last_touch.wf(),
        ensures
            final(self).last_touch.wf(),
            final(self).same_but_touches(old(self)),
            if touch_due(old(self).last_touch@, id@, now) {
                &&& r is Some
                &&& r->0@ == machine_path(id@, "/touch"@)
                &&& final(self).last_touch@ == old(self).last_touch@.insert(id@, now)
            } else {
                r is None && final(self).last_touch@ == old(self).last_touch@
            },
    {
        let key = id.to_owned();
        let due = match self.last_touch.get(&key) {
            Some(last) => membership::since(now, *last) >= TOUCH_INTERVAL,
            None => true,
        };
        if due {
            self.last_touch.insert(key, now);
            Some(path_of_machine(id, "/touch"))
        } else {
            None
        }
    }
}

// ---- finding the upstream ----

/// A published port.
#[derive(Clone, Copy, PartialEq, Eq, Structural, Debug)]
pub struct PortJson {
    pub host: u16,
    pub guest: u16,
}

/// What the serve API tells of a machine.
#[derive(Debug)]
pub struct MachineJson {
    pub state: String,
    pub ports: Vec<PortJson>,
}

/// An answer of the serve API: its status and the machine that its body tells of (or
/// what is wrong with the body), or the error by which there is none.
pub type ApiAnswer = Result<(u16, Result<MachineJson, String>), String>;

/// How far the search for an upstream has come.
#[derive(Clone, Copy, PartialEq, Eq, Structural, Debug)]
pub enum ResolvePhase {
    /// The machine is being looked at.
    Look,
    /// The machine is being resumed.
    Resume,
    /// The machine is looked at until it runs, since then.
    Poll { since: u64 },
    /// The resumed machine is being looked at again.
    Relook,
    /// The search has ended.
    Done,
}

/// What the search for an upstream does next.
#[derive(Debug)]
pub enum ResolveAction {
    /// Get this path.
    Get(String),
    /// Post to this path.
    Post(String),
    /// Wait a poll interval, then get this path.
    WaitThenGet(String),
    /// Tunnel to this published port.
    Found(u16),
    /// Answer with this error.
    Fail(RouteError),
}

/// The host port of the first mapping for a guest port.
pub open spec fn host_port(ports: Seq<PortJson>, guest: u16) -> Option<u16>
    decreases ports.len(),
{
    if ports.len() == 0 {
        None
    } else if ports[0].guest == guest {
        Some(ports[0].host)
    } else {
        host_port(ports.drop_first(), guest)
    }
}

fn find_port(ports: &Vec<PortJson>, guest: u16) -> (r: Option<u16>)
    ensures
        r == host_port(ports@, guest),
{
    let mut i: usize = 0;
    assert(ports@.skip(0) =~= ports@);
    while i < ports.len()
        invariant
            i <= ports@.len(),
            host_port(ports@, guest) == host_port(ports@.skip(i as int), guest),
        decreases ports@.len() - i,
    {
        if ports[i].guest == guest {
            return Some(ports[i].host);
        }
        assert(ports@.skip(i as int).drop_first() =~= ports@.skip(i + 1));
        i = i + 1;
    }
    None
}

/// Whether `action` and `next` end the search with what a machine publishes.
pub open spec fn ends_with_port(
    info: MachineJson,
    guest: u16,
    next: ResolvePhase,
    action: ResolveAction,
) -> bool {
    &&& next is Done
    &&& match host_port(info.ports@, guest) {
        Some(p) => action == ResolveAction::Found(p),
        None => action == ResolveAction::Fail(RouteError::PortNotPublished),
    }
}

/// Whether `action` and `next` end the search because the serve API failed in this way.
pub open spec fn ends_upstream(
    message: Seq<char>,
    next: ResolvePhase,
    action: ResolveAction,
) -> bool {
    &&& next is Done
    &&& action is Fail
    &&& action->Fail_0 is Upstream
    &&& action->Fail_0->Upstream_0@ == message
}

/// Whether `action` and the phase `next` follow from an answer in `phase`.
pub open spec fn resolve_follows(
    auto_resume: bool,
    id: Seq<char>,
    guest: u16,
    phase: ResolvePhase,
    answer: ApiAnswer,
    now: u64,
    next: ResolvePhase,
    action: ResolveAction,
) -> bool {
    match phase {
        ResolvePhase::Look => match answer {
            Err(e) => ends_upstream(e@, next, action),
            Ok((status, body)) => if status == 404 {
                next is Done && action == ResolveAction::Fail(RouteError::NotFound)
            } else if !(200 <= status < 300) {
                ends_upstream("GET machine -> "@ + number::digits(status as nat), next, action)
            } else {
                match body {
                    Err(e) => ends_upstream(e@, next, action),
                    Ok(info) => if info.state@ == "paused"@ && auto_resume {
                        &&& next is Resume
                        &&& action is Post
                        &&& action->Post_0@ == machine_path(id, "/resume"@)
                    } else if info.state@ == "paused"@ || info.state@ == "pausing"@ {
                        next is Done && action == ResolveAction::Fail(RouteError::Paused)
                    } else {
                        ends_with_port(info, guest, next, action)
                    },
                }
            },
        },
        ResolvePhase::Resume => match answer {
            Err(e) => ends_upstream(e@, next, action),
            Ok((status, _)) => if 200 <= status < 300 {
                &&& next is Relook
                &&& action is Get
                &&& action->Get_0@ == machine_path(id, ""@)
            } else {
                &&& next == ResolvePhase::Poll { since: now }
                &&& action is WaitThenGet
                &&& action->WaitThenGet_0@ == machine_path(id, ""@)
            },
        },
        ResolvePhase::Poll { since } => if tells_running(answer) {
            &&& next is Relook
            &&& action is Get
            &&& action->Get_0@ == machine_path(id, ""@)
        } else if membership::elapsed(now, since) < RESUME_READY_TIMEOUT {
            &&& next == phase
            &&& action is WaitThenGet
            &&& action->WaitThenGet_0@ == machine_path(id, ""@)
        } else {
            ends_upstream("sandbox did not become ready"@, next, action)
        },
        ResolvePhase::Relook => match answer {
            Err(e) => ends_upstream(e@, next, action),
            Ok((_, body)) => match body {
                Err(e) => ends_upstream(e@, next, action),
                Ok(info) => ends_with_port(info, guest, next, action),
            },
        },
        ResolvePhase::Done => false,
    }
}

/// Whether an answer tells of a running machine.
pub open spec fn tells_running(answer: ApiAnswer) -> bool {
    match answer {
        Ok((_, Ok(info))) => info.state@ == "running"@,
        _ => false,
    }
}

fn end_with_port(info: &MachineJson, guest: u16) -> (r: (ResolvePhase, ResolveAction))
    ensures
        ends_with_port(*info, guest, r.0, r.1),
{
    match find_port(&info.ports, guest) {
        Some(p) => (ResolvePhase::Done, ResolveAction::Found(p)),
        None => (ResolvePhase::Done, ResolveAction::Fail(RouteError::PortNotPublished)),
    }
}

fn end_upstream(message: String) -> (r: (ResolvePhase, ResolveAction))
    ensures
        ends_upstream(message@, r.0, r.1),
{
    (ResolvePhase::Done, ResolveAction::Fail(RouteError::Upstream(message)))
}

/// The first step of the search for an upstream: look at the machine.
pub fn resolve_begin(id: &str) -> (r: (ResolvePhase, ResolveAction))
    ensures
        r.0 is Look,
        r.1 is Get,
        r.1->Get_0@ == machine_path(id@, ""@),
{
    (ResolvePhase::Look, ResolveAction::Get(path_of_machine(id, "")))
}

/// Goes on with the resumption of a sandbox after an answer of the serve API. The
/// resumption already waits until the sandbox is ready; where it is refused, someone
/// else may be resuming it, so it is looked at until it runs.
pub fn resume_and_wait(id: &str, phase: ResolvePhase, answer: ApiAnswer, now: u64) -> (r: (
    ResolvePhase,
    ResolveAction,
))
    requires
        phase is Resume || phase is Poll,
    ensures
        forall|auto_resume: bool, guest: u16| #[trigger]
            resolve_follows(auto_resume, id@, guest, phase, answer, now, r.0, r.1),
{
    match phase {
        ResolvePhase::Resume => match answer {
            Err(e) => end_upstream(e),
            Ok((status, _)) => if 200 <= status && status < 300 {
                (ResolvePhase::Relook, ResolveAction::Get(path_of_machine(id, "")))
            } else {
                (
                    ResolvePhase::Poll { since: now },
                    ResolveAction::WaitThenGet(path_of_machine(id, "")),
                )
            },
        },
        ResolvePhase::Poll { since } => {
            let running = match &answer {
                Ok((_, Ok(info))) => text::same_str(info.state.as_str(), "running"),
                _ => false,
            };
            if running {
                (ResolvePhase::Relook, ResolveAction::Get(path_of_machine(id, "")))
            } else if membership::since(now, since) < RESUME_READY_TIMEOUT {
                (phase, ResolveAction::WaitThenGet(path_of_machine(id, "")))
            } else {
                end_upstream("sandbox did not become ready".to_owned())
            }
        },
        _ => vstd::pervasive::unreached(),
    }
}

impl ProxyConfig {
    /// Goes on with the search for the published port of a sandbox after an answer of
    /// the serve API, resuming a paused sandbox first when auto-resume is on. A machine
    /// in any other state is taken as it is; the port lookup fails cleanly if it
    /// publishes none.
    pub fn resolve_upstream(
        &self,
        id: &str,
        guest: u16,
        phase: ResolvePhase,
        answer: ApiAnswer,
        now: u64,
    ) -> (r: (ResolvePhase, ResolveAction))
        requires
            !(phase is Done),
        ensures
            resolve_follows(self.auto_resume, id@, guest, phase, answer, now, r.0, r.1),
    {
        match phase {
            ResolvePhase::Look => match answer {
                Err(e) => end_upstream(e),
                Ok((status, body)) => {
                    if status == 404 {
                        return (ResolvePhase::Done, ResolveAction::Fail(RouteError::NotFound));
                    }
                    if !(200 <= status && status < 300) {
                        let mut m = String::new();
                        m.append("GET machine -> ");
                        m.append(number::decimal(status as u64).as_str());
                        assert(m@ =~= "GET machine -> "@ + number::digits(status as nat));
                        return end_upstream(m);
                    }
                    match body {
                        Err(e) => end_upstream(e),
                        Ok(info) => {
                            let paused = text::same_str(info.state.as_str(), "paused");
                            if paused && self.auto_resume {
                                (
                                    ResolvePhase::Resume,
                                    ResolveAction::Post(path_of_machine(id, "/resume")),
                                )
                            } else if paused || text::same_str(info.state.as_str(), "pausing") {
                                (ResolvePhase::Done, ResolveAction::Fail(RouteError::Paused))
                            } else {
                                end_with_port(&info, guest)
                            }
                        },
                    }
                },
            },
            ResolvePhase::Relook => match answer {
                Err(e) => end_upstream(e),
                Ok((_, Err(e))) => end_upstream(e),
                Ok((_, Ok(info))) => end_with_port(&info, guest),
            },
            ResolvePhase::Done => vstd::pervasive::unreached(),
            _ => {
                let r = resume_and_wait(id, phase, answer, now);
                assert(resolve_follows(
                    self.auto_resume,
                    id@,
                    guest,
                    phase,
                    answer,
                    now,
                    r.0,
                    r.1,
                ));
                r
            },
        }
    }
}

// ---- one connection from head to tunnel ----

/// How far a connection has come.
#[derive(Debug)]
pub enum RelayPhase {
    /// Its head is being read.
    Reading,
    /// The published port of this sandbox is being looked for.
    Resolving { id: String },
    /// The serve API is being dialed.
    DialingServe,
    /// The published port is being dialed.
    DialingSandbox,
    /// Nothing is left to decide.
    Done,
}

/// What happened on a connection.
pub enum RelayEvent<'a> {
    /// These are the bytes of the head read so far.
    Head(&'a [u8]),
    /// The client closed before its head was complete.
    Closed,
    /// The sandbox publishes this port.
    Resolved(u16),
    /// There is no port to tunnel to.
    Unresolved(RouteError),
    /// The dialed place took the connection.
    Connected,
    /// The dialed place did not take the connection.
    ConnectFailed,
}

/// What to do for a connection.
#[derive(Debug)]
pub enum RelayAction {
    /// Read more of the head.
    Read,
    /// Look for the published port of this sandbox.
    Resolve { id: String, port: u16 },
    /// Dial the serve API.
    DialServe,
    /// Post to `touch` where it is given, without waiting for it, and dial this address.
    DialSandbox { addr: String, touch: Option<String> },
    /// Answer with this status and message.
    Reply { status: u16, message: String },
    /// Replay the head to the dialed place, then copy both ways.
    Tunnel,
    /// Let the connection go.
    Drop,
}

/// Whether the connection ends with this answer.
pub open spec fn ends_with_reply(
    reply: (u16, Seq<char>),
    next: RelayPhase,
    action: RelayAction,
) -> bool {
    &&& next is Done
    &&& action is Reply
    &&& action->status == reply.0
    &&& action->message@ == reply.1
}

/// Whether a connection whose complete head names `host` goes on in this way.
pub open spec fn head_follows(
    host: Option<Seq<char>>,
    api_host: Option<Seq<char>>,
    next: RelayPhase,
    action: RelayAction,
) -> bool {
    match host {
        None => ends_with_reply((400, "missing Host header"@), next, action),
        Some(h) => if api_host is Some && host_is(h, api_host->0) {
            next is DialingServe && action is DialServe
        } else {
            match preview_of(h) {
                Some((port, id)) => {
                    &&& next is Resolving
                    &&& next->id@ == id
                    &&& action is Resolve
                    &&& action->id@ == id
                    &&& action->port == port
                },
                None => ends_with_reply(
                    (404, "host must be <port>-<sandboxId>.<domain>"@),
                    next,
                    action,
                ),
            }
        },
    }
}

/// Whether the proxy `new`, the phase `next` and `action` follow from an event in
/// `phase`. An event that does not belong to the phase lets the connection go.
pub open spec fn relay_follows(
    old: ProxyConfig,
    phase: RelayPhase,
    event: RelayEvent,
    now: u64,
    new: ProxyConfig,
    next: RelayPhase,
    action: RelayAction,
) -> bool {
    match (phase, event) {
        (RelayPhase::Reading, RelayEvent::Head(b)) => {
            &&& new == old
            &&& if bytes::position(b@, bytes::blank_line()) is Some {
                head_follows(
                    first_host(text::lines(bytes::utf8_lossy(b@))),
                    text::opt(old.api_host),
                    next,
                    action,
                )
            } else if b@.len() > MAX_HEAD_BYTES {
                ends_with_reply(refusal_reply(Refusal::HeadTooLarge), next, action)
            } else {
                next is Reading && action is Read
            }
        },
        (RelayPhase::Resolving { id }, RelayEvent::Resolved(port)) => {
            &&& next is DialingSandbox
            &&& action is DialSandbox
            &&& action->addr@ == old.upstream_host@ + ":"@ + number::digits(port as nat)
            &&& new.same_but_touches(&old)
            &&& if touch_due(old.last_touch@, id@, now) {
                &&& text::opt(action->touch) == Some(machine_path(id@, "/touch"@))
                &&& new.last_touch@ == old.last_touch@.insert(id@, now)
            } else {
                action->touch is None && new.last_touch@ == old.last_touch@
            }
        },
        (RelayPhase::Resolving { id }, RelayEvent::Unresolved(e)) => {
            new == old && ends_with_reply(route_reply(e), next, action)
        },
        (RelayPhase::DialingServe, RelayEvent::Connected) => {
            new == old && next is Done && action is Tunnel
        },
        (RelayPhase::DialingServe, RelayEvent::ConnectFailed) => {
            new == old && ends_with_reply(refusal_reply(Refusal::ServeUnreachable), next, action)
        },
        (RelayPhase::DialingSandbox, RelayEvent::Connected) => {
            new == old && next is Done && action is Tunnel
        },
        (RelayPhase::DialingSandbox, RelayEvent::ConnectFailed) => {
            new == old && ends_with_reply(refusal_reply(Refusal::SandboxUnreachable), next, action)
        },
        _ => new == old && next is Done && action is Drop,
    }
}

fn end_with_reply(status: u16, message: &str) -> (r: (RelayPhase, RelayAction))
    ensures
        ends_with_reply((status, message@), r.0, r.1),
{
    (RelayPhase::Done, RelayAction::Reply { status, message: message.to_owned() })
}

fn refuse(why: Refusal) -> (r: (RelayPhase, RelayAction))
    ensures
        ends_with_reply(refusal_reply(why), r.0, r.1),
{
    let (status, message) = why.reply();
    end_with_reply(status, message)
}

impl ProxyConfig {
    /// Goes on with a connection after an event: its head is read and routed, a sandbox's
    /// published port is looked for, and what was found is dialed and joined to it. A
    /// request counts as activity of the sandbox as soon as its port is known.
    pub fn relay(&mut self, phase: RelayPhase, event: RelayEvent, now: u64) -> (r: (
        RelayPhase,
        RelayAction,
    ))
        requires
            old(self).last_touch.wf(),
        ensures
            final(self).last_touch.wf(),
            relay_follows(*old(self), phase, event, now, *final(self), r.0, r.1),
    {
        match (phase, event) {
            (RelayPhase::Reading, RelayEvent::Head(b)) => match head_step(b) {
                HeadStep::Read => (RelayPhase::Reading, RelayAction::Read),
                HeadStep::TooLarge => refuse(Refusal::HeadTooLarge),
                HeadStep::Complete => match self.handle_conn(b) {
                    ConnStep::Serve => (RelayPhase::DialingServe, RelayAction::DialServe),
                    ConnStep::Reply { status, message } => end_with_reply(
                        status,
                        message.as_str(),
                    ),
                    ConnStep::Preview { port, id } => {
                        let wanted = id.as_str().to_owned();
                        (RelayPhase::Resolving { id }, RelayAction::Resolve { id: wanted, port })
                    },
                },
            },
            (RelayPhase::Resolving { id }, RelayEvent::Resolved(port)) => {
                let touch = self.maybe_touch(id.as_str(), now);
                let addr = self.upstream_addr(port);
                (RelayPhase::DialingSandbox, RelayAction::DialSandbox { addr, touch })
            },
            (RelayPhase::Resolving { .. }, RelayEvent::Unresolved(e)) => {
                let (status, message) = e.reply();
                end_with_reply(status, message)
            },
            (RelayPhase::DialingServe, RelayEvent::Connected) => {
                (RelayPhase::Done, RelayAction::Tunnel)
            },
            (RelayPhase::DialingServe, RelayEvent::ConnectFailed) => {
                refuse(Refusal::ServeUnreachable)
            },
            (RelayPhase::DialingSandbox, RelayEvent::Connected) => {
                (RelayPhase::Done, RelayAction::Tunnel)
            },
            (RelayPhase::DialingSandbox, RelayEvent::ConnectFailed) => {
                refuse(Refusal::SandboxUnreachable)
            },
            _ => (RelayPhase::Done, RelayAction::Drop),
        }
    }
}

/// A request counts as activity only once the port of its sandbox is known: no other
/// event notes a refresh, and a refresh that is posted is that of the sandbox that the
/// connection was looking for.
pub proof fn law_only_a_resolved_sandbox_is_touched(
    old: ProxyConfig,
    phase: RelayPhase,
    event: RelayEvent,
    now: u64,
    new: ProxyConfig,
    next: RelayPhase,
    action: RelayAction,
)
    requires
        relay_follows(old, phase, event, now, new, next, action),
    ensures
        new.last_touch@ != old.last_touch@ ==> phase is Resolving && event is Resolved,
        action is DialSandbox ==> phase is Resolving && event is Resolved,
        action is DialSandbox && action->touch is Some ==> action->touch->0@ == machine_path(
            phase->id@,
            "/touch"@,
        ),
{
}

/// A connection is tunneled only to a place that was dialed and took it, and once it is
/// over nothing more is done for it.
pub proof fn law_only_a_dialed_place_is_tunneled_to(
    old: ProxyConfig,
    phase: RelayPhase,
    event: RelayEvent,
    now: u64,
    new: ProxyConfig,
    next: RelayPhase,
    action: RelayAction,
)
    requires
        relay_follows(old, phase, event, now, new, next, action),
    ensures
        action is Tunnel <==> (phase is DialingServe || phase is DialingSandbox)
            && event is Connected,
        phase is Done ==> action is Drop && next is Done && new == old,
{
}

// ---- laws ----

/// A preview host reads back as the port and the sandbox it was made from, whatever
/// domain follows, and whatever dashes the id holds.
pub proof fn law_preview_host_round_trip(port: u16, id: Seq<char>, domain: Seq<char>)
    requires
        id.len() > 0,
        !id.contains('.'),
        domain.len() == 0 || domain[0] == '.',
    ensures
        preview_of(number::digits(port as nat) + seq!['-'] + id + domain) == Some(
            (port as nat, id),
        ),
{
    let d = number::digits(port as nat);
    let label = d + seq!['-'] + id;
    let host = d + seq!['-'] + id + domain;
    number::lemma_digits(port as nat);
    number::law_decimal_round_trip(port as nat, u16::MAX as nat);
    assert(host =~= label + domain);
    assert forall|j: int| 0 <= j < label.len() implies label[j] != '.' by {
        if j < d.len() {
            assert(label[j] == d[j]);
            assert(number::is_digit(d[j]));
        } else if j > d.len() {
            assert(label[j] == id[j - d.len() - 1]);
            assert(id.contains(id[j - d.len() - 1]));
        }
    }
    assert forall|j: int| 0 <= j < label.len() implies host[j] != '.' by {
        assert(host[j] == label[j]);
    }
    text::lemma_index_of_is(host, '.', label.len() as int);
    assert(text::before(host, '.') =~= label);
    assert forall|j: int| 0 <= j < d.len() implies label[j] != '-' by {
        assert(label[j] == d[j]);
        assert(number::is_digit(d[j]));
    }
    assert(label[d.len() as int] == '-');
    text::lemma_index_of_is(label, '-', d.len() as int);
    assert(label.take(d.len() as int) =~= d);
    assert(label.skip(d.len() as int + 1) =~= id);
}

/// The domain of a preview host is ignored: only what stands before the first dot
/// counts.
pub proof fn law_domain_is_ignored(a: Seq<char>, b: Seq<char>)
    requires
        text::before(a, '.') == text::before(b, '.'),
    ensures
        preview_of(a) == preview_of(b),
{
}

/// A busy sandbox is refreshed at most once per interval: after a refresh none is due
/// until the interval has passed.
pub proof fn law_touched_at_most_once_per_interval(
    m: Map<Seq<char>, u64>,
    id: Seq<char>,
    then: u64,
    now: u64,
)
    requires
        then <= now,
        now - then < TOUCH_INTERVAL,
    ensures
        touch_due(m, id, then) ==> !touch_due(m.insert(id, then), id, now),
{
}

/// With auto-resume off nothing is ever resumed, and a paused sandbox is answered with
/// a conflict.
pub proof fn law_no_resume_without_auto_resume(
    id: Seq<char>,
    guest: u16,
    phase: ResolvePhase,
    answer: ApiAnswer,
    now: u64,
    next: ResolvePhase,
    action: ResolveAction,
)
    requires
        resolve_follows(false, id, guest, phase, answer, now, next, action),
    ensures
        !(action is Post),
        !(next is Resume),
        ({
            &&& phase is Look
            &&& answer is Ok
            &&& 200 <= answer->Ok_0.0 < 300
            &&& answer->Ok_0.1 is Ok
            &&& answer->Ok_0.1->Ok_0.state@ == "paused"@
        }) ==> action is Fail && route_reply(action->Fail_0).0 == 409,
{
}

/// The search for an upstream tunnels only to a port that the machine publishes for the
/// guest port that was asked for.
pub proof fn law_only_published_ports(
    auto_resume: bool,
    id: Seq<char>,
    guest: u16,
    phase: ResolvePhase,
    answer: ApiAnswer,
    now: u64,
    next: ResolvePhase,
    action: ResolveAction,
)
    requires
        resolve_follows(auto_resume, id, guest, phase, answer, now, next, action),
        action is Found,
    ensures
        answer is Ok,
        answer->Ok_0.1 is Ok,
        publishes(answer->Ok_0.1->Ok_0.ports@, guest, action->Found_0),
{
    lemma_host_port(answer->Ok_0.1->Ok_0.ports@, guest);
}

/// Whether some mapping is from `guest` to `host`.
pub open spec fn publishes(ports: Seq<PortJson>, guest: u16, host: u16) -> bool {
    ports.contains(PortJson { host, guest })
}

proof fn lemma_host_port(ports: Seq<PortJson>, guest: u16)
    requires
        host_port(ports, guest) is Some,
    ensures
        publishes(ports, guest, host_port(ports, guest)->0),
    decreases ports.len(),
{
    let p = PortJson { host: host_port(ports, guest)->0, guest };
    if ports[0].guest == guest {
        assert(ports[0] == p);
    } else {
        let t = ports.drop_first();
        lemma_host_port(t, guest);
        let i = choose|i: int| 0 <= i < t.len() && t[i] == p;
        assert(ports[i + 1] == p);
    }
}

/// What a path segment is written with: nothing that could end the segment.
pub proof fn law_escaped_ids_stay_in_their_segment(b: Seq<u8>)
    ensures
        forall|i: int|
            0 <= i < all_escaped(b).len() ==> {
                let c = #[trigger] all_escaped(b)[i];
                c != '/' && c != '?' && c != '#' && c != ' ' && c != '\r' && c != '\n'
            },
    decreases b.len(),
{
    if b.len() > 0 {
        law_escaped_ids_stay_in_their_segment(b.drop_last());
        let a = all_escaped(b.drop_last());
        let e = escaped(b.last());
        assert forall|i: int| 0 <= i < all_escaped(b).len() implies {
            let c = #[trigger] all_escaped(b)[i];
            c != '/' && c != '?' && c != '#' && c != ' ' && c != '\r' && c != '\n'
        } by {
            if i < a.len() {
                assert(all_escaped(b)[i] == a[i]);
            } else {
                assert(all_escaped(b)[i] == e[i - a.len()]);
            }
        }
    }
}

/// Whether a character is an ASCII letter, a digit or one of `-_.~`.
pub open spec fn plain(c: char) -> bool {
    ||| 'A' <= c <= 'Z'
    ||| 'a' <= c <= 'z'
    ||| '0' <= c <= '9'
    ||| c == '-'
    ||| c == '_'
    ||| c == '.'
    ||| c == '~'
}

/// A sandbox id stands in a path as it is exactly where it is made of letters, digits and
/// `-_.~`.
pub proof fn law_plain_ids_pass_unchanged(id: Seq<char>)
    ensures
        all_escaped(encode_utf8(id)) == id <==> forall|i: int|
            0 <= i < id.len() ==> plain(#[trigger] id[i]),
{
    let b = encode_utf8(id);
    if forall|i: int| 0 <= i < id.len() ==> plain(#[trigger] id[i]) {
        assert(is_ascii_chars(id));
        is_ascii_chars_encode_utf8(id);
        assert forall|i: int| 0 <= i < b.len() implies unreserved(#[trigger] b[i]) by {
            assert(b[i] == id[i] as u8);
        }
        lemma_unreserved_pass(b);
        assert(all_escaped(b) =~= id);
    }
    if all_escaped(b) == id {
        lemma_encoded_len(id);
        lemma_escaped_len(b);
        lemma_unreserved_pass(b);
        assert forall|i: int| 0 <= i < id.len() implies plain(#[trigger] id[i]) by {
            assert(all_escaped(b)[i] == b[i] as char);
            assert(unreserved(b[i]));
        }
    }
}

proof fn lemma_encoded_len(s: Seq<char>)
    ensures
        encode_utf8(s).len() >= s.len(),
    decreases s.len(),
{
    if s.len() > 0 {
        lemma_encoded_len(s.drop_first());
        encode_utf8_first_scalar(s);
    }
}

proof fn lemma_escaped_len(b: Seq<u8>)
    ensures
        all_escaped(b).len() >= b.len(),
        all_escaped(b).len() == b.len() ==> forall|i: int|
            0 <= i < b.len() ==> unreserved(#[trigger] b[i]),
    decreases b.len(),
{
    if b.len() > 0 {
        let t = b.drop_last();
        lemma_escaped_len(t);
        if all_escaped(b).len() == b.len() {
            assert forall|i: int| 0 <= i < b.len() implies unreserved(#[trigger] b[i]) by {
                if i < t.len() {
                    assert(unreserved(t[i]));
                }
            }
        }
    }
}

proof fn lemma_unreserved_pass(b: Seq<u8>)
    requires
        forall|i: int| 0 <= i < b.len() ==> unreserved(#[trigger] b[i]),
    ensures
        all_escaped(b).len() == b.len(),
        forall|i: int| 0 <= i < b.len() ==> #[trigger] all_escaped(b)[i] == b[i] as char,
    decreases b.len(),
{
    if b.len() > 0 {
        let t = b.drop_last();
        assert forall|i: int| 0 <= i < t.len() implies unreserved(#[trigger] t[i]) by {
            assert(t[i] == b[i]);
        }
        lemma_unreserved_pass(t);
        assert(unreserved(b[b.len() - 1]));
        assert forall|i: int| 0 <= i < b.len() implies #[trigger] all_escaped(b)[i] == b[i] as char by {
            if i < t.len() {
                assert(all_escaped(b)[i] == all_escaped(t)[i]);
            } else {
                assert(all_escaped(b)[i] == escaped(b.last())[0]);
            }
        }
    }
}

/// Whether a host has a `<port>-` prefix.
pub open spec fn has_port_prefix(host: Seq<char>) -> bool {
    match text::split_once(text::before(host, '.'), '-') {
        Some((port, _)) => number::parse(port, u16::MAX as nat) is Some,
        None => false,
    }
}

/// An API host without a `<port>-` prefix never collides with a preview host: no
/// request for a preview goes to the serve API.
pub proof fn law_api_host_never_collides(api: Seq<char>, host: Seq<char>)
    requires
        !has_port_prefix(api),
        preview_of(host) is Some,
    ensures
        !host_is(host, api),
{
    if host_is(host, api) {
        let label = text::before(host, '.');
        text::lemma_index_of(host, '.');
        text::lemma_index_of(label, '-');
        text::lemma_last_index_of(host, ':');
        let k = text::index_of(label, '-');
        let port = label.take(k);
        let c = text::last_index_of(host, ':');
        let p = without_port(host);
        assert forall|i: int| 0 <= i < k implies port_char(#[trigger] host[i]) by {
            assert(port[i] == host[i]);
            let d = number::after_plus(port);
            if d.len() < port.len() && i > 0 {
                assert(d[i - 1] == port[i]);
            } else if d.len() == port.len() {
                assert(d[i] == port[i]);
            }
        }
        assert(host[k] == label[k]);
        assert(p.len() > k && forall|i: int| 0 <= i <= k ==> p[i] == #[trigger] host[i]) by {
            if 0 <= c <= k {
                assert(host[c] == ':');
            }
        }
        text::lemma_lower(p);
        text::lemma_lower(api);
        assert(text::lower(p).len() == text::lower(api).len());
        assert forall|i: int| 0 <= i <= k implies api[i] == #[trigger] host[i] by {
            assert(p[i] == host[i]);
            assert(text::lower(p)[i] == text::lower_char(p[i]));
            assert(text::lower(api)[i] == text::lower_char(api[i]));
        }
        text::lemma_index_of(api, '.');
        let j = text::index_of(api, '.');
        assert(j > k) by {
            if j <= k {
                assert(api[j] == host[j]);
            }
        }
        let l = text::before(api, '.');
        assert forall|i: int| 0 <= i < k implies l[i] != '-' by {
            assert(l[i] == host[i]);
        }
        assert(l[k] == '-') by {
            assert(l[k] == host[k]);
        }
        text::lemma_index_of_is(l, '-', k);
        assert(l.take(k) =~= port);
    }
}

/// Whether a character can stand in a port number.
pub open spec fn port_char(c: char) -> bool {
    number::is_digit(c) || c == '+'
}

// ---- laws of path segments ----

/// The value of a hexadecimal digit.
pub open spec fn hex_value(c: char) -> Option<int> {
    let n = c as int;
    if 0x30 <= n <= 0x39 {
        Some(n - 0x30)
    } else if 0x41 <= n <= 0x46 {
        Some(n - 0x41 + 10)
    } else if 0x61 <= n <= 0x66 {
        Some(n - 0x61 + 10)
    } else {
        None
    }
}

/// The bytes that a percent-encoded text stands for, where it is one.
pub open spec fn percent_decoded(s: Seq<char>) -> Option<Seq<u8>>
    decreases s.len(),
{
    if s.len() == 0 {
        Some(seq![])
    } else if s[0] == '%' {
        if s.len() < 3 {
            None
        } else {
            match (hex_value(s[1]), hex_value(s[2]), percent_decoded(s.skip(3))) {
                (Some(high), Some(low), Some(rest)) => Some(seq![(high * 16 + low) as u8] + rest),
                _ => None,
            }
        }
    } else if (s[0] as int) < 0x80 {
        match percent_decoded(s.skip(1)) {
            Some(rest) => Some(seq![s[0] as u8] + rest),
            None => None,
        }
    } else {
        None
    }
}

proof fn lemma_escaped_cons(b: Seq<u8>)
    requires
        b.len() > 0,
    ensures
        all_escaped(b) == escaped(b[0]) + all_escaped(b.drop_first()),
    decreases b.len(),
{
    let front = b.drop_last();
    if front.len() == 0 {
        assert(b.drop_first() =~= front);
        assert(all_escaped(b) =~= escaped(b[0]) + all_escaped(b.drop_first()));
    } else {
        lemma_escaped_cons(front);
        assert(b.drop_first().drop_last() =~= front.drop_first());
        assert(b.drop_first().last() == b.last());
        assert(all_escaped(b) =~= escaped(b[0]) + all_escaped(b.drop_first()));
    }
}

/// Percent-decoding undoes the writing of bytes as a path segment.
pub proof fn law_percent_decoding_reads_back(b: Seq<u8>)
    ensures
        percent_decoded(all_escaped(b)) == Some(b),
    decreases b.len(),
{
    let s = all_escaped(b);
    if b.len() == 0 {
        assert(percent_decoded(s)->0 =~= b);
    } else {
        let t = b.drop_first();
        lemma_escaped_cons(b);
        law_percent_decoding_reads_back(t);
        if unreserved(b[0]) {
            assert(s.skip(1) =~= all_escaped(t));
            assert(s[0] == b[0] as char);
        } else {
            let high = b[0] as int / 16;
            let low = b[0] as int % 16;
            assert(s[0] == '%');
            assert(s[1] == number::hex_char_upper(high));
            assert(s[2] == number::hex_char_upper(low));
            assert(s.skip(3) =~= all_escaped(t));
            assert(hex_value(s[1]) == Some(high));
            assert(hex_value(s[2]) == Some(low));
        }
        assert(seq![b[0]] + t =~= b);
    }
}

/// Two ids that are written alike are equal, so the paths of two sandboxes never meet.
pub proof fn law_ids_written_alike_are_equal(a: Seq<char>, b: Seq<char>, tail: Seq<char>)
    ensures
        all_escaped(encode_utf8(a)) == all_escaped(encode_utf8(b)) ==> a == b,
        machine_path(a, tail) == machine_path(b, tail) ==> a == b,
{
    let x = all_escaped(encode_utf8(a));
    let y = all_escaped(encode_utf8(b));
    if machine_path(a, tail) == machine_path(b, tail) {
        let start = "/api/v1/machines/"@;
        let n = start.len() as int;
        assert(machine_path(a, tail).len() == n + x.len() + tail.len());
        assert(machine_path(b, tail).len() == n + y.len() + tail.len());
        assert(machine_path(a, tail).subrange(n, n + x.len()) =~= x);
        assert(machine_path(b, tail).subrange(n, n + y.len()) =~= y);
    }
    if x == y {
        law_percent_decoding_reads_back(encode_utf8(a));
        law_percent_decoding_reads_back(encode_utf8(b));
        encode_utf8_decode_utf8(a);
        encode_utf8_decode_utf8(b);
    }
}

}
