//! What the command-line tools decide, read and show.

pub mod cluster;
pub mod cluster_laws;
pub mod proxy;
pub mod proxy_laws;
