//! e2b-shaped control-plane adapter: a thin `/sandboxes` surface that maps e2b request
//! and response shapes onto the machine lifecycle.

pub mod handlers;
pub mod laws;
pub mod machines;
pub mod types;
