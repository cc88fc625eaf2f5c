//! Cluster configuration (roles and connection info). Inert unless a role is set.

use crate::text;
use std::path::PathBuf;
use vstd::prelude::*;

verus! {

/// The path type of the standard library, carried along unread.
#[verifier::external_type_specification]
#[verifier::external_body]
pub struct ExPathBuf(std::path::PathBuf);

/// Which cluster role this process plays. Absent means a single process.
#[derive(Clone, Copy, PartialEq, Eq, Structural, Debug)]
pub enum Role {
    /// Runs VMs; accepts forwarded requests and bids.
    Backend,
    /// Public API listener; dispatches to backends. No local VMs.
    Frontend,
}

/// The role that a setting names, whatever its case and the white space around it.
pub open spec fn role_named(s: Seq<char>) -> Option<Role> {
    let t = text::lower(text::trim(s));
    if t == "backend"@ {
        Some(Role::Backend)
    } else if t == "frontend"@ {
        Some(Role::Frontend)
    } else {
        None
    }
}

impl Role {
    /// The role that a setting names.
    pub fn parse(s: &str) -> (r: Option<Role>)
        ensures
            r == role_named(s@),
    {
        let c = text::chars_of(s);
        let t = text::to_lower(text::strip(c.as_slice()));
        if text::same_str(t.as_str(), "backend") {
            Some(Role::Backend)
        } else if text::same_str(t.as_str(), "frontend") {
            Some(Role::Frontend)
        } else {
            None
        }
    }
}

/// A local serve socket the backend bridges forwarded requests to.
#[derive(Debug)]
pub enum LocalServe {
    Unix(PathBuf),
    Tcp(String),
}

/// Backend cluster config.
#[derive(Debug)]
pub struct BackendConfig {
    /// Shared cluster secret (derives the topic; gates membership).
    pub secret: String,
    /// The backend's own local serve socket, bridged to on forwarded requests.
    pub local_serve: LocalServe,
    /// The frontends to dial, by endpoint id.
    pub frontends: Vec<String>,
    /// Path to persist this node's secret key.
    pub key_path: PathBuf,
}

/// Frontend cluster config.
#[derive(Debug)]
pub struct FrontendConfig {
    pub secret: String,
    /// Public address the frontend's HTTP listener binds.
    pub listen: String,
    /// Bootstrap endpoint ids.
    pub bootstrap: Vec<String>,
    pub key_path: PathBuf,
}

}
