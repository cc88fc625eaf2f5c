//! Small shared helpers.

use crate::ids;
use crate::ids::{parse_id, EndpointId, IdError};
use crate::text;
use vstd::prelude::*;
use vstd::string::*;

verus! {

/// Whether a text holds two colons or more.
pub open spec fn many_colons(t: Seq<char>) -> bool {
    text::index_of(t, ':') < text::last_index_of(t, ':')
}

/// The socket address that a bind setting names: none where it is unset or blank;
/// otherwise a bare IP with an ephemeral port (an IPv6 one, which holds two colons or
/// more and no bracket in front, in brackets), or the setting itself where it holds a
/// port.
pub open spec fn bind_target(raw: Option<Seq<char>>) -> Option<Seq<char>> {
    match raw {
        Some(s) => {
            let t = text::trim(s);
            if t.len() == 0 {
                None
            } else if many_colons(t) && t[0] != '[' {
                Some("["@ + t + "]:0"@)
            } else if t.contains(':') {
                Some(t)
            } else {
                Some(t + ":0"@)
            }
        },
        None => None,
    }
}

/// The socket address to pin the endpoint to, from the bind setting (an IP, or IP:port).
/// Nothing is pinned where it is unset.
pub fn apply_bind(raw: Option<&str>) -> (r: Option<String>)
    ensures
        match r {
            Some(a) => raw is Some && bind_target(Some(raw->0@)) == Some(a@),
            None => raw is None || bind_target(Some(raw->0@)) is None,
        },
{
    match raw {
        Some(s) => {
            let c = text::chars_of(s);
            let t = text::strip(c.as_slice());
            if t.len() == 0 {
                return None;
            }
            let k = text::find(t, ':');
            proof {
                text::lemma_index_of(t@, ':');
                text::lemma_last_index_of(t@, ':');
                if k < t@.len() {
                    assert(t@[k as int] == ':');
                    assert(t@.contains(':'));
                } else {
                    assert(!t@.contains(':'));
                }
            }
            let many = match text::rcut(t, ':') {
                Some((before, _)) => k < before.len(),
                None => false,
            };
            if many && t[0] != '[' {
                let mut a = "[".to_owned();
                a.append(text::string_of(t).as_str());
                a.append("]:0");
                return Some(a);
            }
            let mut a = text::string_of(t);
            if k == t.len() {
                a.append(":0");
            }
            Some(a)
        },
        None => None,
    }
}

/// The ids that a list of texts holds: the texts without the white space around them,
/// blank ones left out.
pub open spec fn wanted(raw: Seq<String>) -> Seq<Seq<char>>
    decreases raw.len(),
{
    if raw.len() == 0 {
        seq![]
    } else {
        let t = text::trim(raw.last()@);
        if t.len() == 0 {
            wanted(raw.drop_last())
        } else {
            wanted(raw.drop_last()).push(t)
        }
    }
}

/// The ids that some texts write, or the first text that writes none.
pub open spec fn all_ids(w: Seq<Seq<char>>) -> Result<Seq<EndpointId>, Seq<char>>
    decreases w.len(),
{
    if w.len() == 0 {
        Ok(seq![])
    } else {
        match all_ids(w.drop_last()) {
            Err(s) => Err(s),
            Ok(v) => match ids::id_in(w.last()) {
                Some(id) => Ok(v.push(id)),
                None => Err(w.last()),
            },
        }
    }
}

/// The ids that were all read, or the first failure.
pub open spec fn gathered(v: Seq<Result<EndpointId, IdError>>) -> Result<Seq<EndpointId>, IdError>
    decreases v.len(),
{
    if v.len() == 0 {
        Ok(seq![])
    } else {
        match gathered(v.drop_last()) {
            Err(e) => Err(e),
            Ok(ids) => match v.last() {
                Ok(id) => Ok(ids.push(id)),
                Err(e) => Err(e),
            },
        }
    }
}

proof fn lemma_gathered_prefix(v: Seq<Result<EndpointId, IdError>>, k: int)
    requires
        0 <= k <= v.len(),
        gathered(v.take(k)) is Err,
    ensures
        gathered(v) == gathered(v.take(k)),
    decreases v.len(),
{
    if k == v.len() {
        assert(v.take(k) =~= v);
    } else {
        let t = v.drop_last();
        assert(t.take(k) =~= v.take(k));
        lemma_gathered_prefix(t, k);
    }
}

/// The ids, where every one was read; the first failure otherwise.
pub fn gather(parsed: Vec<Result<EndpointId, IdError>>) -> (r: Result<Vec<EndpointId>, IdError>)
    ensures
        match r {
            Ok(v) => gathered(parsed@) == Ok::<Seq<EndpointId>, IdError>(v@),
            Err(e) => gathered(parsed@) == Err::<Seq<EndpointId>, IdError>(e),
        },
{
    let ghost all = parsed@;
    let mut rest = parsed;
    let mut ids: Vec<EndpointId> = Vec::new();
    let mut k: usize = 0;
    while k < rest.len()
        invariant
            all == parsed@,
            rest@ == all,
            k <= all.len(),
            gathered(all.take(k as int)) == Ok::<Seq<EndpointId>, IdError>(ids@),
        decreases all.len() - k,
    {
        proof {
            assert(all.take(k + 1).drop_last() =~= all.take(k as int));
            assert(all.take(k + 1).last() == all[k as int]);
        }
        match &rest[k] {
            Ok(id) => {
                ids.push(*id);
            },
            Err(_) => {
                proof {
                    lemma_gathered_prefix(all, k + 1);
                }
                let failure = rest.remove(k);
                match failure {
                    Err(e) => {
                        return Err(e);
                    },
                    Ok(_) => {
                        return Ok(ids);
                    },
                }
            },
        }
        k = k + 1;
    }
    assert(all.take(k as int) =~= all);
    Ok(ids)
}

/// Whether `v` is what reading the texts `w` one by one gives.
pub open spec fn reads(v: Seq<Result<EndpointId, IdError>>, w: Seq<Seq<char>>) -> bool {
    &&& v.len() == w.len()
    &&& forall|i: int|
        0 <= i < v.len() ==> match #[trigger] v[i] {
            Ok(id) => ids::id_in(w[i]) == Some(id),
            Err(e) => {
                &&& e.given@ == w[i]
                &&& ids::endpoint_key(w[i]) == Err::<Seq<u8>, Seq<char>>(e.detail@)
            },
        }
}

proof fn lemma_gathered_reads(v: Seq<Result<EndpointId, IdError>>, w: Seq<Seq<char>>)
    requires
        reads(v, w),
    ensures
        match gathered(v) {
            Ok(ids) => all_ids(w) == Ok::<Seq<EndpointId>, Seq<char>>(ids),
            Err(e) => {
                &&& all_ids(w) == Err::<Seq<EndpointId>, Seq<char>>(e.given@)
                &&& ids::endpoint_key(e.given@) == Err::<Seq<u8>, Seq<char>>(e.detail@)
            },
        },
    decreases v.len(),
{
    if v.len() > 0 {
        let t = v.drop_last();
        let u = w.drop_last();
        assert forall|i: int| 0 <= i < t.len() implies match #[trigger] t[i] {
            Ok(id) => ids::id_in(u[i]) == Some(id),
            Err(e) => {
                &&& e.given@ == u[i]
                &&& ids::endpoint_key(u[i]) == Err::<Seq<u8>, Seq<char>>(e.detail@)
            },
        } by {
            assert(t[i] == v[i]);
        }
        lemma_gathered_reads(t, u);
        assert(v[v.len() - 1] == v.last());
    }
}

/// Parses endpoint ids, skipping blanks. The first text that is no id is reported.
pub fn parse_ids(raw: &Vec<String>) -> (r: Result<Vec<EndpointId>, IdError>)
    ensures
        match r {
            Ok(v) => all_ids(wanted(raw@)) == Ok::<Seq<EndpointId>, Seq<char>>(v@),
            Err(e) => {
                &&& all_ids(wanted(raw@)) == Err::<Seq<EndpointId>, Seq<char>>(e.given@)
                &&& ids::endpoint_key(e.given@) == Err::<Seq<u8>, Seq<char>>(e.detail@)
            },
        },
{
    let mut parsed: Vec<Result<EndpointId, IdError>> = Vec::new();
    let mut i: usize = 0;
    while i < raw.len()
        invariant
            i <= raw@.len(),
            reads(parsed@, wanted(raw@.take(i as int))),
        decreases raw@.len() - i,
    {
        let c = text::chars_of(raw[i].as_str());
        let t = text::strip(c.as_slice());
        assert(raw@.take(i + 1).drop_last() =~= raw@.take(i as int));
        if t.len() > 0 {
            let s = text::string_of(t);
            parsed.push(parse_id(s.as_str()));
        }
        i = i + 1;
    }
    proof {
        assert(raw@.take(i as int) =~= raw@);
        lemma_gathered_reads(parsed@, wanted(raw@));
    }
    gather(parsed)
}

/// The message for a text that is no id, where `what` says which id was wanted and
/// `quoted` is the text in quotes.
pub open spec fn id_error_line(what: Seq<char>, quoted: Seq<char>, detail: Seq<char>) -> Seq<char> {
    "invalid "@ + what + " id "@ + quoted + ": "@ + detail
}

/// The message for a text that is no id, once the text is in quotes.
pub fn write_id_error(what: &str, quoted: &str, detail: &str) -> (s: String)
    ensures
        s@ == id_error_line(what@, quoted@, detail@),
{
    let mut s = "invalid ".to_owned();
    s.append(what);
    s.append(" id ");
    s.append(quoted);
    s.append(": ");
    s.append(detail);
    s
}

/// The message for a text that is no id.
pub open spec fn id_error_text(what: Seq<char>, given: Seq<char>, detail: Seq<char>) -> Seq<char> {
    id_error_line(what, ids::debug_text(given), detail)
}

/// The message for a text that is no id.
pub fn id_error_message(what: &str, e: &IdError) -> (s: String)
    ensures
        s@ == id_error_text(what@, e.given@, e.detail@),
{
    let quoted = ids::quoted(e.given.as_str());
    write_id_error(what, quoted.as_str(), e.detail.as_str())
}

/// Milliseconds since the start of 1970, in 64 bits: used as a per-process announce
/// epoch, so that a restarted backend's announces supersede its old ones. A clock set
/// before 1970 counts as 0.
pub fn now_millis(since_1970: Option<u128>) -> (n: u64)
    ensures
        n == (match since_1970 {
            Some(ms) => ms % 0x1_0000_0000_0000_0000,
            None => 0,
        }),
{
    match since_1970 {
        Some(ms) => (ms % 0x1_0000_0000_0000_0000) as u64,
        None => 0,
    }
}

}
