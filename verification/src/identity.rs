//! Persistent node identity.
//!
//! A cluster node needs a stable id (an ed25519 public key) across restarts so that
//! peers can reach it by id. The 32-byte secret key is kept in a file that is loaded,
//! or generated and written, on startup.

use crate::ids;
use crate::ids::EndpointId;
use crate::number;
use vstd::prelude::*;
use vstd::string::*;

verus! {

/// What reading the key file gave.
pub enum KeyRead {
    /// The bytes of the file.
    Bytes(Vec<u8>),
    /// There is no such file.
    NotFound,
    /// The file could not be read.
    Failed,
}

/// What to do about the key.
pub enum KeyStep {
    /// Use this secret key, of 32 bytes.
    Load(Vec<u8>),
    /// The file does not hold 32 bytes.
    Malformed,
    /// Generate a key and persist it.
    Generate,
    /// Report the failed read.
    Fail,
}

/// Whether `step` is what to do after reading the key file: the key is that of the file
/// where it holds one, and a new key is made where there is no file.
pub open spec fn key_follows(read: KeyRead, step: KeyStep) -> bool {
    match read {
        KeyRead::Bytes(b) => if b@.len() == 32 {
            step is Load && step->Load_0@ == b@
        } else {
            step is Malformed
        },
        KeyRead::NotFound => step is Generate,
        KeyRead::Failed => step is Fail,
    }
}

/// Decides where the node's secret key comes from: the file where it holds a key, a
/// new key where there is no file.
pub fn load_or_generate(read: KeyRead) -> (step: KeyStep)
    ensures
        key_follows(read, step),
{
    match read {
        KeyRead::Bytes(b) => if b.len() == 32 {
            KeyStep::Load(b)
        } else {
            KeyStep::Malformed
        },
        KeyRead::NotFound => KeyStep::Generate,
        KeyRead::Failed => KeyStep::Fail,
    }
}

/// A key file to write.
#[derive(Debug)]
pub struct KeyFile {
    pub bytes: Vec<u8>,
    /// Who may read and write it, as Unix permission bits.
    pub mode: u32,
}

/// What the file of a secret key holds: its raw bytes.
pub open spec fn file_of(secret: Seq<u8>) -> Seq<u8> {
    secret
}

/// The file in which a new secret key is kept, for its owner alone.
pub fn key_file(secret: &[u8; 32]) -> (f: KeyFile)
    ensures
        f.bytes@ == file_of(secret@),
        f.mode == 0o600,
{
    KeyFile {
        bytes: vstd::slice::slice_to_vec(vstd::array::array_as_slice(secret)),
        mode: 0o600,
    }
}

/// The message for a key file that does not hold 32 bytes.
pub open spec fn malformed_text(path: Seq<char>) -> Seq<char> {
    "cluster key at "@ + path + " is not 32 bytes"@
}

/// The message for a key file that does not hold 32 bytes.
pub fn malformed_message(path: &str) -> (s: String)
    ensures
        s@ == malformed_text(path@),
{
    let mut s = String::new();
    s.append("cluster key at ");
    s.append(path);
    s.append(" is not 32 bytes");
    assert(s@ =~= malformed_text(path@));
    s
}

/// The 32 bytes of the public key that belongs to a secret key of 32 bytes, as iroh
/// derives it.
pub uninterp spec fn public_key(secret: Seq<u8>) -> Seq<u8>;

/// Calls `iroh::SecretKey::from_bytes` and `iroh::SecretKey::public`: the public key is
/// a function of the secret key. Its bytes in small hexadecimal digits are what
/// `iroh::EndpointId` displays, and read back as the same key.
#[verifier::external_body]
fn derive_public_key(secret: &[u8; 32]) -> (key: [u8; 32])
    ensures
        key@ == public_key(secret@),
        ids::endpoint_key(number::hex(key@)) == Ok::<Seq<u8>, Seq<char>>(key@),
{
    *iroh::SecretKey::from_bytes(secret).public().as_bytes()
}

/// The id of the node that holds a secret key. It depends on nothing else, so a node
/// keeps its id as long as it keeps its key; and other nodes read it from the text in
/// which it is shown.
pub fn node_id(secret: &[u8; 32]) -> (id: EndpointId)
    ensures
        id == ids::id_of(public_key(secret@)),
        id.bytes() == public_key(secret@),
        ids::id_in(number::hex(id.bytes())) == Some(id),
{
    let key = derive_public_key(secret);
    EndpointId::from_bytes(&key)
}

/// The key file on disk after a start, and the secret key that the start uses: whether
/// they follow from the file `before` (its bytes, where there is one), `drawn` being the
/// key that is generated where one is needed. The disk gives back what it holds.
pub open spec fn starts(
    before: Option<Seq<u8>>,
    drawn: Seq<u8>,
    after: Option<Seq<u8>>,
    used: Seq<u8>,
) -> bool {
    exists|read: KeyRead, step: KeyStep|
        {
            &&& match before {
                Some(b) => read is Bytes && read->Bytes_0@ == b,
                None => read is NotFound,
            }
            &&& #[trigger] key_follows(read, step)
            &&& match step {
                KeyStep::Load(key) => after == before && used == key@,
                KeyStep::Generate => after == Some(file_of(drawn)) && used == drawn,
                _ => false,
            }
        }
}

/// A node keeps its id across restarts: where there is no file, a start uses the key that
/// it drew and leaves its bytes on disk; and every start that finds them, whatever it
/// would have drawn, leaves the file as it is and uses that key, with the same id.
pub proof fn law_restart_keeps_the_id(
    drawn: Seq<u8>,
    file: Option<Seq<u8>>,
    first: Seq<u8>,
    redrawn: Seq<u8>,
    later: Option<Seq<u8>>,
    second: Seq<u8>,
)
    requires
        drawn.len() == 32,
        starts(None, drawn, file, first),
        starts(file, redrawn, later, second),
    ensures
        first == drawn,
        file == Some(drawn),
        later == file,
        second == drawn,
        ids::id_of(public_key(second)) == ids::id_of(public_key(first)),
{
}

/// A file of another length is no key: no start goes on with it.
pub proof fn law_malformed_file_stops_the_start(
    before: Seq<u8>,
    drawn: Seq<u8>,
    after: Option<Seq<u8>>,
    used: Seq<u8>,
)
    requires
        before.len() != 32,
    ensures
        !starts(Some(before), drawn, after, used),
{
}

}
