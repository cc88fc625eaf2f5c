//! Cluster topic derivation.

use crate::bytes;
use crate::wire;
use vstd::prelude::*;
use vstd::utf8::encode_utf8;

verus! {

/// The 32 bytes that name a cluster's swarm.
#[derive(Clone, Copy, PartialEq, Eq, Debug)]
pub struct TopicId {
    pub bytes: [u8; 32],
}

/// Derives the cluster's topic from a shared secret: nodes that share the secret
/// compute the same topic and thus form one swarm.
pub fn topic_from_secret(secret: &str) -> (t: TopicId)
    ensures
        t.bytes@ == wire::blake3_digest(encode_utf8(secret@)),
{
    let b = bytes::bytes_of(secret);
    TopicId { bytes: wire::blake3_hash(b.as_slice()) }
}

}
