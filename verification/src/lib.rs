//! Clustering for a microVM runtime: membership, placement, request routing and
//! the wire formats around them, each with a machine-checked contract.

pub mod text;
pub mod number;
pub mod bytes;
pub mod http;
pub mod http_laws;
pub mod message_laws;
pub mod ids;
pub mod table;
pub mod membership;
pub mod capacity;
pub mod registry;
pub mod roster;
pub mod backends;
pub mod bid;
pub mod wire;
pub mod topic;
pub mod util;
pub mod config;
pub mod identity;
pub mod link;
pub mod node_laws;
pub mod text_laws;
pub mod step_laws;
pub mod frontend;
pub mod frontend_laws;
pub mod backend;
pub mod string_map;
pub mod e2b;
pub mod cli;

pub use backend::BackendAgent;
pub use capacity::{score, BidSpec, CapacitySnapshot, CapacitySource};
pub use config::{BackendConfig, FrontendConfig, LocalServe, Role};
pub use identity::load_or_generate;
