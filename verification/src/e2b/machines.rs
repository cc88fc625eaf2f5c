//! The machine lifecycle, as far as the adapter reads it.

use crate::string_map::StringMap;
use vstd::prelude::*;

verus! {

/// What the lifecycle tells of one machine.
pub struct MachineInfo {
    pub name: String,
    pub state: String,
    pub cpus: u8,
    pub mem: u32,
    pub storage_gb: Option<u64>,
    /// Seconds since the start of 1970.
    pub created_at: u64,
    pub metadata: StringMap,
}

/// A guest port to expose; host 0 asks for any free port.
#[derive(Clone, Copy, PartialEq, Eq, Structural, Debug)]
pub struct PortMapping {
    pub host: u16,
    pub guest: u16,
}

/// Asks for a machine.
pub struct CreateMachineRequest {
    pub image: Option<String>,
    pub from: Option<String>,
    pub network: bool,
    pub timeout_secs: u64,
    pub on_idle: String,
    /// Environment variables, name and value.
    pub env: Vec<(String, String)>,
    pub metadata: StringMap,
    pub cmd: Vec<String>,
    pub name: Option<String>,
    pub cpus: Option<u8>,
    pub memory_mb: Option<u32>,
    pub workdir: Option<String>,
    pub ports: Option<Vec<PortMapping>>,
}

/// Asks for another idle timeout.
#[derive(Clone, Copy, PartialEq, Eq, Structural, Debug)]
pub struct SetTimeoutRequest {
    pub timeout_secs: u64,
}

/// How a machine is deleted.
#[derive(Clone, Copy, PartialEq, Eq, Structural, Debug)]
pub struct DeleteQuery {
    pub force: bool,
    pub cascade: bool,
}

/// How a lifecycle call fails.
#[derive(Debug)]
pub enum ApiError {
    Unauthorized(String),
    Forbidden(String),
    NotFound(String),
    Conflict(String),
    PortConflict(String),
    CloneIdentityRejuvenationFailed(String),
    BadRequest(String),
    Timeout,
    Unavailable(String),
    Internal(String),
}

}
