//! Control-plane messages and their framing, exchanged over one stream per direction
//! on every cluster connection. The data plane (forwarded requests) is a raw byte
//! tunnel on separate streams and needs no framing.

use crate::bytes;
use crate::capacity::CapacitySnapshot;
use crate::ids;
use crate::ids::EndpointId;
use crate::membership::MemberRole;
use crate::number;
use crate::roster::EndpointAddr;
use vstd::prelude::*;
use vstd::slice::slice_subrange;
use vstd::string::*;
use vstd::utf8::encode_utf8;

verus! {

/// Cap on a single control message: 256 KiB.
pub const MSG_CAP: usize = 262144;

/// Messages on a control stream, in order: one `Hello`, then a repeating mix of
/// `Members` and (from backends) `Capacity`.
pub enum Control {
    /// First message: the sender's role and proof that it shares the cluster secret.
    Hello { role: MemberRole, token: String },
    /// The sender's announced membership view.
    Members(Vec<(EndpointId, MemberRole)>),
    /// A backend's current capacity (backend to frontend only).
    Capacity(CapacitySnapshot),
}

/// Messages on the cluster's topic, by which backends make themselves known.
pub enum ClusterMsg<A> {
    /// A backend is there, and can be reached so.
    Announce { addr: EndpointAddr<A>, epoch: u64 },
    /// A backend leaves.
    Withdraw { id: EndpointId },
}

/// The 32 bytes of the hash that `blake3::hash` gives of some bytes.
pub uninterp spec fn blake3_digest(b: Seq<u8>) -> Seq<u8>;

/// Calls `blake3::hash`: the 32-byte digest is a function of the bytes.
#[verifier::external_body]
pub(crate) fn blake3_hash(b: &[u8]) -> (d: [u8; 32])
    ensures
        d@ == blake3_digest(b@),
{
    *blake3::hash(b).as_bytes()
}

/// The token of a cluster whose secret has the digest `d`.
pub open spec fn token_text(d: Seq<u8>) -> Seq<char> {
    number::hex(d)
}

/// Writes a digest as a token.
pub fn token_of_digest(d: &[u8]) -> (t: String)
    ensures
        t@ == token_text(d@),
{
    number::to_hex(d)
}

/// The membership token derived from the shared secret: the digest of its bytes in
/// hexadecimal digits.
pub fn membership_token(secret: &str) -> (t: String)
    ensures
        t@ == token_text(blake3_digest(encode_utf8(secret@))),
{
    let b = bytes::bytes_of(secret);
    let d = blake3_hash(b.as_slice());
    token_of_digest(&d)
}

/// The frame of a message body: its length in four bytes, most significant first, then
/// the body.
pub open spec fn frame(body: Seq<u8>) -> Seq<u8> {
    ids::digits256((body.len() % 0x1_0000_0000) as nat, 4) + body
}

/// Frames a message body.
pub fn encode(body: &[u8]) -> (out: Vec<u8>)
    ensures
        out@ == frame(body@),
{
    let n: u64 = (body.len() as u64) % 0x1_0000_0000;
    let mut out = ids::write_big_endian(n as u128, 4);
    bytes::append_bytes(&mut out, body);
    out
}

/// What the bytes of a stream hold at its front.
pub enum FrameStep<'a> {
    /// So many more bytes have to arrive.
    Need(usize),
    /// The announced length is over the cap.
    TooLarge(usize),
    /// The body of a complete frame.
    Body(&'a [u8]),
}

/// The length that the first four bytes of a stream announce.
pub open spec fn announced(buf: Seq<u8>) -> nat {
    ids::big_endian(buf.take(4))
}

/// Reads one framed message off the front of a stream's bytes: first the length, then
/// as many bytes as it announces.
pub fn read_framed(buf: &[u8]) -> (step: FrameStep)
    ensures
        match step {
            FrameStep::Need(k) => {
                ||| buf@.len() < 4 && k == 4 - buf@.len()
                ||| {
                    &&& buf@.len() >= 4
                    &&& announced(buf@) <= MSG_CAP
                    &&& buf@.len() < 4 + announced(buf@)
                    &&& k == 4 + announced(buf@) - buf@.len()
                }
            },
            FrameStep::TooLarge(n) => {
                &&& buf@.len() >= 4
                &&& announced(buf@) > MSG_CAP
                &&& n == announced(buf@)
            },
            FrameStep::Body(b) => {
                &&& buf@.len() >= 4 + announced(buf@)
                &&& announced(buf@) <= MSG_CAP
                &&& b@ == buf@.subrange(4, 4 + announced(buf@) as int)
            },
        },
{
    if buf.len() < 4 {
        return FrameStep::Need(4 - buf.len());
    }
    let head = slice_subrange(buf, 0, 4);
    let v = ids::read_big_endian(head);
    proof {
        assert(head@ =~= buf@.take(4));
        ids::lemma_big_endian_bound(head@);
        assert(ids::pow256(4) == 0x1_0000_0000) by {
            reveal_with_fuel(ids::pow256, 5);
        }
    }
    let n: usize = v as usize;
    if n > MSG_CAP {
        return FrameStep::TooLarge(n);
    }
    if buf.len() - 4 < n {
        return FrameStep::Need(4 + n - buf.len());
    }
    FrameStep::Body(slice_subrange(buf, 4, 4 + n))
}

/// The message for a frame that is over the cap.
pub open spec fn too_large_text(n: nat) -> Seq<char> {
    "control message too large: "@ + number::digits(n) + " bytes"@
}

/// What a stream says that breaks off or announces too much.
pub fn too_large_message(n: usize) -> (s: String)
    ensures
        s@ == too_large_text(n as nat),
{
    let mut s = String::new();
    s.append("control message too large: ");
    s.append(number::decimal(n as u64).as_str());
    s.append(" bytes");
    assert(s@ =~= too_large_text(n as nat));
    s
}

/// A read gives back what a write framed: the front of any stream that starts with the
/// frame of a body announces that body's length, and the body follows. (A body of more
/// than four gigabytes has a length that four bytes cannot hold.)
pub proof fn law_framed_body_reads_back(body: Seq<u8>, rest: Seq<u8>)
    requires
        body.len() < 0x1_0000_0000,
    ensures
        announced(frame(body) + rest) == body.len(),
        (frame(body) + rest).len() >= 4 + body.len(),
        (frame(body) + rest).subrange(4, 4 + body.len() as int) == body,
{
    let n = (body.len() % 0x1_0000_0000) as nat;
    ids::lemma_digits256(n, 4);
    assert(ids::pow256(4) == 0x1_0000_0000) by {
        reveal_with_fuel(ids::pow256, 5);
    }
    let s = frame(body) + rest;
    assert(s.take(4) =~= ids::digits256(n, 4));
    assert(s.subrange(4, 4 + body.len() as int) =~= body);
}

}
