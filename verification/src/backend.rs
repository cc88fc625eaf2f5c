//! Backend cluster agent: what it decides.
//!
//! The backend dials its frontends and keeps a connection to each open (redialing if
//! it drops). Over it, it pushes periodic capacity updates and serves the frontend's
//! forwarded requests.

use crate::capacity::CapacitySnapshot;
use crate::config::BackendConfig;
use crate::ids;
use crate::ids::{EndpointId, IdError};
use crate::membership::MemberRole;
use crate::util;
use crate::util::{id_error_message, parse_ids};
use crate::wire;
use crate::wire::{membership_token, Control};
use vstd::prelude::*;
use vstd::string::*;
use vstd::utf8::encode_utf8;

verus! {

/// How long to wait before dialing again: two seconds.
pub const REDIAL_INTERVAL: u64 = 2_000_000_000;

/// A backend cluster agent.
pub struct BackendAgent {
    pub id: EndpointId,
    /// The frontends to keep a connection to.
    pub frontends: Vec<EndpointId>,
    /// The token by which they let it in.
    pub token: String,
}

/// Why a backend does not start.
pub enum SpawnError {
    /// One of the frontends is no endpoint id.
    Frontend(IdError),
    /// There is no frontend to dial.
    NoFrontend,
}

impl SpawnError {
    /// The message of the error.
    pub open spec fn spec_message(&self) -> Seq<char> {
        match self {
            SpawnError::Frontend(e) => util::id_error_text("frontend"@, e.given@, e.detail@),
            SpawnError::NoFrontend => "a backend needs at least one frontend to dial"@,
        }
    }

    /// The message of the error.
    pub fn message(&self) -> (s: String)
        ensures
            s@ == self.spec_message(),
    {
        match self {
            SpawnError::Frontend(e) => id_error_message("frontend", e),
            SpawnError::NoFrontend => "a backend needs at least one frontend to dial".to_owned(),
        }
    }
}

impl BackendAgent {
    /// Reads off the configuration which frontends to keep a connection to and which
    /// token opens them. Fails where a frontend is no endpoint id, or there is none.
    pub fn spawn(id: EndpointId, cfg: &BackendConfig) -> (r: Result<BackendAgent, SpawnError>)
        ensures
            match util::all_ids(util::wanted(cfg.frontends@)) {
                Ok(v) => if v.len() > 0 {
                    &&& r is Ok
                    &&& r->Ok_0.id == id
                    &&& r->Ok_0.frontends@ == v
                    &&& r->Ok_0.token@ == wire::token_text(
                        wire::blake3_digest(encode_utf8(cfg.secret@)),
                    )
                } else {
                    r is Err && r->Err_0 is NoFrontend
                },
                Err(s) => {
                    &&& r is Err
                    &&& r->Err_0 is Frontend
                    &&& r->Err_0->Frontend_0.given@ == s
                    &&& ids::endpoint_key(s) == Err::<Seq<u8>, Seq<char>>(
                        r->Err_0->Frontend_0.detail@,
                    )
                },
            },
    {
        let token = membership_token(cfg.secret.as_str());
        BackendAgent::with_frontends(id, parse_ids(&cfg.frontends), token)
    }

    /// An agent for the frontends that were read. Fails where one was not, or there is
    /// none.
    pub fn with_frontends(
        id: EndpointId,
        frontends: Result<Vec<EndpointId>, IdError>,
        token: String,
    ) -> (r: Result<BackendAgent, SpawnError>)
        ensures
            match frontends {
                Ok(v) => if v@.len() > 0 {
                    r == Ok::<BackendAgent, SpawnError>(BackendAgent { id, frontends: v, token })
                } else {
                    r == Err::<BackendAgent, SpawnError>(SpawnError::NoFrontend)
                },
                Err(e) => r == Err::<BackendAgent, SpawnError>(SpawnError::Frontend(e)),
            },
    {
        match frontends {
            Ok(frontends) => {
                if frontends.len() == 0 {
                    return Err(SpawnError::NoFrontend);
                }
                Ok(BackendAgent { id, frontends, token })
            },
            Err(e) => Err(SpawnError::Frontend(e)),
        }
    }

    pub fn endpoint_id(&self) -> (id: EndpointId)
        ensures
            id == self.id,
    {
        self.id
    }

    /// The `n`-th message on a control stream, counted from 0: first the membership
    /// token, then the current capacity.
    pub fn push_control(&self, n: u64, snap: CapacitySnapshot) -> (m: Control)
        ensures
            n == 0 ==> m is Hello && m->role == MemberRole::Backend && m->token@ == self.token@,
            n > 0 ==> m == Control::Capacity(snap),
    {
        if n == 0 {
            Control::Hello { role: MemberRole::Backend, token: self.token.as_str().to_owned() }
        } else {
            Control::Capacity(snap)
        }
    }
}

}
