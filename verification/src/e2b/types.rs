//! e2b-shaped request and response types for the control-plane adapter.

use crate::string_map::StringMap;
use vstd::prelude::*;

verus! {

/// The idle timeout, in seconds, of a request that names none.
pub fn default_timeout() -> (t: u64)
    ensures
        t == 15,
{
    15
}

/// `POST /sandboxes` request.
pub struct CreateSandboxRequest {
    pub template_id: Option<String>,
    pub timeout: u64,
    pub metadata: StringMap,
    pub env_vars: StringMap,
    pub auto_pause: Option<bool>,
    pub allow_internet_access: Option<bool>,
    /// Client-chosen sandbox id (stock e2b always server-generates ids).
    pub name: Option<String>,
    pub cpus: Option<u8>,
    pub memory_mb: Option<u32>,
    /// Guest port numbers to expose through the preview proxy (host side is
    /// auto-allocated).
    pub ports: Option<Vec<u16>>,
    /// Overrides the default workload command.
    pub cmd: Option<Vec<String>>,
    pub workdir: Option<String>,
}

/// Response for create and resume (201).
#[derive(Debug)]
pub struct SandboxCreateResponse {
    pub sandbox_id: String,
    pub template_id: String,
    pub envd_version: String,
    pub envd_access_token: String,
    pub traffic_access_token: Option<String>,
    pub domain: Option<String>,
    pub alias: Option<String>,
}

/// One entry in `GET /v2/sandboxes` and the base of the detail object.
pub struct SandboxListItem {
    pub sandbox_id: String,
    pub template_id: String,
    pub started_at: Option<String>,
    pub end_at: Option<String>,
    pub cpu_count: u32,
    pub memory_mb: u32,
    pub disk_size_mb: u64,
    pub metadata: StringMap,
    pub state: String,
    pub envd_version: String,
    pub alias: Option<String>,
}

/// `GET /sandboxes/{id}` detail: the list item plus lifecycle.
pub struct SandboxDetail {
    pub base: SandboxListItem,
    pub lifecycle: Lifecycle,
}

/// How a sandbox ends and comes back.
#[derive(Debug)]
pub struct Lifecycle {
    pub auto_resume: bool,
    pub on_timeout: String,
}

#[derive(Clone, Copy, PartialEq, Eq, Structural, Debug)]
pub struct SetTimeoutBody {
    pub timeout: u64,
}

#[derive(Clone, Copy, PartialEq, Eq, Structural, Debug)]
pub struct ResumeBody {
    pub timeout: Option<u64>,
}

#[derive(Clone, Copy, PartialEq, Eq, Structural, Debug)]
pub struct PauseBody {
    pub memory: Option<u64>,
}

#[derive(Clone, Copy, PartialEq, Eq, Structural, Debug)]
pub struct RefreshBody {
    pub duration: Option<u64>,
}

/// e2b error envelope.
#[derive(Debug)]
pub struct E2bError {
    pub code: u16,
    pub error_code: String,
    pub message: String,
}

}
