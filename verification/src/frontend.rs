//! Frontend cluster agent: what the public HTTP listener decides. It builds a live
//! roster of backends from their announcements, and tunnels each request to a backend's
//! local serve socket.
//!
//! Placement is deterministic: every request goes to the backend with the lowest id,
//! so multi-request flows stay on the machine's owner. Two paths are served locally
//! instead of tunneled: `GET /health` (frontend liveness) and `GET /cluster/roster`
//! (introspection).
//!
//! Addresses and connections are carried along unread. Times are nanoseconds of a
//! clock that never runs backwards.

use crate::bytes;
use crate::config::FrontendConfig;
use crate::ids;
use crate::ids::{EndpointId, IdError};
use crate::membership;
use crate::number;
use crate::roster;
use crate::roster::{EndpointAddr, Roster};
use crate::table;
use crate::table::Table;
use crate::text;
use crate::topic::{topic_from_secret, TopicId};
use crate::util;
use crate::util::parse_ids;
use crate::wire;
use crate::wire::ClusterMsg;
use vstd::prelude::*;
use vstd::string::*;
use vstd::utf8::encode_utf8;

verus! {

/// Cap on how much of a request is read while peeking the request line.
pub const HEAD_PEEK_CAP: usize = 8192;

/// Whether the bytes read so far are enough to see the request line.
pub fn peeked_enough(buf: &[u8]) -> (r: bool)
    ensures
        r == (bytes::position(buf@, bytes::newline()) is Some || buf@.len() >= HEAD_PEEK_CAP),
{
    if buf.len() >= HEAD_PEEK_CAP {
        return true;
    }
    match bytes::find_newline(buf) {
        Some(_) => true,
        None => false,
    }
}

/// The first two words of a request line, empty where there are none: the method and
/// the target.
pub open spec fn line_words(line: Seq<char>) -> (Seq<char>, Seq<char>) {
    let l = text::trim_end_char(line, '\r');
    (
        match text::nth_word(l, 0) {
            Some(w) => w,
            None => seq![],
        },
        match text::nth_word(l, 1) {
            Some(w) => w,
            None => seq![],
        },
    )
}

/// The method and the target of a request line.
pub fn words_of_line(line: &[char]) -> (r: (String, String))
    ensures
        (r.0@, r.1@) == line_words(line@),
{
    let l = text::strip_end_char(line, '\r');
    let method = match text::word_at(l, 0) {
        Some(w) => text::string_of(w),
        None => String::new(),
    };
    let path = match text::word_at(l, 1) {
        Some(w) => text::string_of(w),
        None => String::new(),
    };
    assert(method@ =~= line_words(line@).0);
    assert(path@ =~= line_words(line@).1);
    (method, path)
}

/// The method and the target of the request whose first bytes were read. The bytes
/// themselves are replayed into the tunnel.
pub fn peek_head(buf: &[u8]) -> (r: (String, String))
    ensures
        (r.0@, r.1@) == line_words(bytes::utf8_lossy(bytes::raw_line(buf@))),
{
    let c = bytes::lossy_chars(bytes::take_raw_line(buf));
    words_of_line(c.as_slice())
}

/// A small JSON response that ends its connection.
pub open spec fn json_response(status: Seq<char>, body: Seq<char>) -> Seq<char> {
    "HTTP/1.1 "@ + status + "\r\nContent-Type: application/json\r\nContent-Length: "@
        + number::digits(encode_utf8(body).len()) + "\r\nConnection: close\r\n\r\n"@ + body
}

/// The bytes of a small JSON response.
pub fn respond_json(status: &str, body: &str) -> (out: Vec<u8>)
    ensures
        out@ == encode_utf8(json_response(status@, body@)),
{
    let n = bytes::bytes_of(body).len();
    let mut s = String::new();
    s.append("HTTP/1.1 ");
    s.append(status);
    s.append("\r\nContent-Type: application/json\r\nContent-Length: ");
    s.append(number::decimal(n as u64).as_str());
    s.append("\r\nConnection: close\r\n\r\n");
    s.append(body);
    assert(s@ =~= json_response(status@, body@));
    bytes::bytes_of(s.as_str())
}

/// One line of the roster as it is shown.
pub struct RosterRow<'a, A> {
    pub id: String,
    pub epoch: u64,
    pub age_ms: u64,
    pub addrs: &'a A,
}

/// Whether a row shows the backend `id`.
pub open spec fn shows<A>(row: RosterRow<A>, r: Roster<A>, id: EndpointId, now: u64) -> bool {
    &&& r@.contains_key(id)
    &&& row.id@ == number::hex(id.bytes())
    &&& row.epoch == r@[id].epoch
    &&& row.age_ms == membership::elapsed(now, r@[id].last_seen) / 1_000_000
    &&& *row.addrs == r@[id].addr.addrs
}

/// The roster as it is shown: a row for each backend, each once.
pub fn roster_rows<A>(r: &Roster<A>, now: u64) -> (v: Vec<RosterRow<A>>)
    requires
        r.wf(),
    ensures
        r@.dom().finite(),
        v@.len() == r@.len(),
        exists|ids: Seq<EndpointId>|
            {
                &&& ids.len() == v@.len()
                &&& #[trigger] ids.no_duplicates()
                &&& forall|i: int| 0 <= i < v@.len() ==> shows(#[trigger] v@[i], *r, ids[i], now)
                &&& forall|id: EndpointId| #[trigger] r@.contains_key(id) ==> ids.contains(id)
            },
{
    let all = r.snapshot(now);
    let mut v: Vec<RosterRow<A>> = Vec::new();
    let mut i: usize = 0;
    while i < all.len()
        invariant
            i <= all@.len(),
            v@.len() == i,
            forall|k: int|
                0 <= k < all@.len() ==> {
                    let b = #[trigger] all@[k];
                    &&& r@.contains_key(b.id)
                    &&& *b.addr == r@[b.id].addr
                    &&& b.epoch == r@[b.id].epoch
                    &&& b.age == membership::elapsed(now, r@[b.id].last_seen)
                },
            forall|k: int| 0 <= k < i ==> shows(#[trigger] v@[k], *r, all@[k].id, now),
        decreases all@.len() - i,
    {
        let b = &all[i];
        v.push(
            RosterRow {
                id: b.id.to_text(),
                epoch: b.epoch,
                age_ms: b.age / 1_000_000,
                addrs: &b.addr.addrs,
            },
        );
        i = i + 1;
    }
    proof {
        let ids = Seq::new(all@.len(), |k: int| all@[k].id);
        assert(ids.no_duplicates());
        assert forall|k: int| 0 <= k < v@.len() implies shows(#[trigger] v@[k], *r, ids[k], now) by {
            assert(ids[k] == all@[k].id);
        }
        assert forall|id: EndpointId| #[trigger] r@.contains_key(id) implies ids.contains(id) by {
            let k = choose|k: int| 0 <= k < all@.len() && (#[trigger] all@[k]).id == id;
            assert(ids[k] == id);
        }
    }
    v
}

/// The body by which a frontend with `backends` backends says that it is alive.
pub open spec fn health_text(backends: nat) -> Seq<char> {
    "{\"backends\":"@ + number::digits(backends) + ",\"role\":\"frontend\",\"status\":\"ok\"}"@
}

/// What to do with a client.
pub enum ClientStep<'a, A> {
    /// Answer that the frontend is alive, with the number of its backends.
    Health { backends: usize },
    /// Answer with the roster.
    Roster,
    /// Answer that no backend is available.
    Unavailable,
    /// Tunnel the request to this backend.
    Tunnel { id: EndpointId, addr: &'a EndpointAddr<A> },
}

impl<'a, A> ClientStep<'a, A> {
    /// The status of a local answer; a tunneled request has the backend's.
    pub open spec fn spec_status(&self) -> Option<Seq<char>> {
        match self {
            ClientStep::Health { .. } => Some("200 OK"@),
            ClientStep::Roster => Some("200 OK"@),
            ClientStep::Unavailable => Some("503 Service Unavailable"@),
            ClientStep::Tunnel { .. } => None,
        }
    }

    /// The status of a local answer.
    pub fn status(&self) -> (r: Option<&'static str>)
        ensures
            match r {
                Some(s) => self.spec_status() == Some(s@),
                None => self.spec_status() is None,
            },
    {
        match self {
            ClientStep::Health { .. } => Some("200 OK"),
            ClientStep::Roster => Some("200 OK"),
            ClientStep::Unavailable => Some("503 Service Unavailable"),
            ClientStep::Tunnel { .. } => None,
        }
    }

    /// The body of a local answer, where the step alone gives it: the roster is made of
    /// its rows, and a tunneled request has the backend's body.
    pub open spec fn spec_body(&self) -> Option<Seq<char>> {
        match self {
            ClientStep::Health { backends } => Some(health_text(*backends as nat)),
            ClientStep::Unavailable => Some("{\"error\":\"no backend available\"}"@),
            ClientStep::Roster => None,
            ClientStep::Tunnel { .. } => None,
        }
    }

    /// The body of a local answer, where the step alone gives it.
    pub fn body(&self) -> (b: Option<String>)
        ensures
            text::opt(b) == self.spec_body(),
            self is Unavailable ==> b is Some && b->0@ == "{\"error\":\"no backend available\"}"@,
            self is Health ==> b is Some && b->0@ == health_text(self->backends as nat),
    {
        match self {
            ClientStep::Health { backends } => {
                let mut s = "{\"backends\":".to_owned();
                s.append(number::decimal(*backends as u64).as_str());
                s.append(",\"role\":\"frontend\",\"status\":\"ok\"}");
                Some(s)
            },
            ClientStep::Unavailable => Some("{\"error\":\"no backend available\"}".to_owned()),
            ClientStep::Roster => None,
            ClientStep::Tunnel { .. } => None,
        }
    }
}

/// How an attempt to tunnel went.
#[derive(Clone, Copy, PartialEq, Eq, Structural, Debug)]
pub enum TunnelEvent {
    /// No connection to the backend.
    ConnectFailed,
    /// A connection, but no stream on it.
    OpenFailed,
    /// A stream is open.
    Opened,
}

/// What to do after an attempt to tunnel.
#[derive(Clone, Copy, PartialEq, Eq, Structural, Debug)]
pub enum TunnelStep {
    /// Replay the request into the stream and join the two.
    Splice,
    /// Try once more, over a new connection.
    Retry,
    /// Drop the client.
    GiveUp,
}

/// What became of the roster.
#[derive(Clone, Copy, PartialEq, Eq, Structural, Debug)]
pub enum RosterChange {
    /// A backend that was not listed is listed now.
    Joined(EndpointId),
    /// A listed backend was heard of again.
    Heard(EndpointId),
    /// A listed backend is listed no more.
    Withdrew(EndpointId),
    /// The message named no listed backend.
    Nothing,
}

/// The frontend's shared routing state.
pub struct Frontend<A, C> {
    pub roster: Roster<A>,
    /// Cached forward connections, one per backend.
    pub conns: Table<EndpointId, C>,
}

/// Whether a request is one that the frontend answers itself at `path`.
pub open spec fn asks_for(method: Seq<char>, target: Seq<char>, path: Seq<char>) -> bool {
    method == "GET"@ && text::before(target, '?') == path
}

/// Whether `id` is the lowest id on the roster.
pub open spec fn lowest<A>(m: Map<EndpointId, roster::Entry<A>>, id: EndpointId) -> bool {
    m.contains_key(id) && forall|other: EndpointId| #[trigger]
        m.contains_key(other) ==> other == id || id.before(other)
}

impl<A, C> Frontend<A, C> {
    /// Nothing is listed twice.
    pub open spec fn wf(&self) -> bool {
        &&& self.roster.wf()
        &&& self.conns.wf()
    }

    /// An empty roster, and no connection yet.
    pub fn new() -> (fe: Self)
        ensures
            fe.wf(),
            fe.roster@ == Map::<EndpointId, roster::Entry<A>>::empty(),
            fe.conns@ == Map::<EndpointId, C>::empty(),
    {
        Frontend { roster: Roster::new(), conns: Table::new() }
    }

    /// Deterministic placement: the live backend with the lowest id.
    pub fn pick(&self) -> (r: Option<(EndpointId, &EndpointAddr<A>)>)
        requires
            self.wf(),
        ensures
            match r {
                Some((id, addr)) => lowest(self.roster@, id) && *addr == self.roster@[id].addr,
                None => self.roster@ == Map::<EndpointId, roster::Entry<A>>::empty(),
            },
    {
        let v = &self.roster.entries.entries;
        let ghost s = v@;
        if v.len() == 0 {
            proof {
                assert forall|id: EndpointId| !self.roster@.contains_key(id) by {
                    if self.roster@.contains_key(id) {
                        let k = table::lemma_key(s, id);
                    }
                }
                assert(self.roster@ =~= Map::<EndpointId, roster::Entry<A>>::empty());
            }
            return None;
        }
        let mut best: usize = 0;
        let mut i: usize = 1;
        while i < v.len()
            invariant
                v@ == s,
                best < i <= s.len(),
                forall|k: int| 0 <= k < i ==> (#[trigger] s[k]).0 == s[best as int].0 || s[best as int].0.before(
                    s[k].0,
                ),
            decreases s.len() - i,
        {
            if v[i].0.is_before(&v[best].0) {
                best = i;
            } else {
                proof {
                    ids::law_ids_are_totally_ordered(s[i as int].0, s[best as int].0);
                }
            }
            i = i + 1;
        }
        let id = v[best].0;
        proof {
            table::lemma_entry(s, best as int);
            assert forall|other: EndpointId| #[trigger] self.roster@.contains_key(other) implies other
                == id || id.before(other) by {
                let k = table::lemma_key(s, other);
                assert(s[k].0 == other);
            }
        }
        Some((id, &v[best].1.addr))
    }

    /// A live forward connection to `id`, where one is cached; the caller dials
    /// otherwise. `open` tells whether a connection is still open.
    pub fn connection<F: Fn(&C) -> bool>(&self, id: &EndpointId, open: F) -> (r: Option<&C>)
        requires
            self.wf(),
            forall|c: &C| call_requires(open, (c,)),
        ensures
            match r {
                Some(c) => {
                    &&& self.conns@.contains_key(*id)
                    &&& *c == self.conns@[*id]
                    &&& call_ensures(open, (c,), true)
                },
                None => self.conns@.contains_key(*id) ==> call_ensures(
                    open,
                    (&self.conns@[*id],),
                    false,
                ),
            },
    {
        match self.conns.get(id) {
            Some(c) => if open(c) {
                Some(c)
            } else {
                None
            },
            None => None,
        }
    }

    /// Caches the connection that was dialed to `id`.
    pub fn store(&mut self, id: EndpointId, conn: C)
        requires
            old(self).wf(),
        ensures
            final(self).wf(),
            final(self).roster == old(self).roster,
            final(self).conns@ == old(self).conns@.insert(id, conn),
    {
        self.conns.insert(id, conn);
    }

    /// Drops the cached connection to `id`.
    pub fn invalidate(&mut self, id: &EndpointId)
        requires
            old(self).wf(),
        ensures
            final(self).wf(),
            final(self).roster == old(self).roster,
            final(self).conns@ == old(self).conns@.remove(*id),
    {
        let _ = self.conns.remove(id);
    }

    /// Decides on one accepted client from its request line: the frontend's own
    /// endpoints answer locally, everything else tunnels to a backend.
    pub fn serve_client(&self, method: &str, target: &str) -> (step: ClientStep<A>)
        requires
            self.wf(),
        ensures
            if asks_for(method@, target@, "/health"@) {
                &&& self.roster@.dom().finite()
                &&& step is Health
                &&& step->backends == self.roster@.len()
            } else if asks_for(method@, target@, "/cluster/roster"@) {
                step is Roster
            } else {
                match step {
                    ClientStep::Tunnel { id, addr } => lowest(self.roster@, id) && *addr
                        == self.roster@[id].addr,
                    ClientStep::Unavailable => self.roster@ == Map::<
                        EndpointId,
                        roster::Entry<A>,
                    >::empty(),
                    _ => false,
                }
            },
    {
        if text::same_str(method, "GET") {
            let c = text::chars_of(target);
            let path = text::string_of(text::take_before(c.as_slice(), '?'));
            if text::same_str(path.as_str(), "/health") {
                let n = self.roster.len();
                return ClientStep::Health { backends: n };
            }
            if text::same_str(path.as_str(), "/cluster/roster") {
                return ClientStep::Roster;
            }
        }
        match self.pick() {
            Some((id, addr)) => ClientStep::Tunnel { id, addr },
            None => ClientStep::Unavailable,
        }
    }

    /// Decides after an attempt to tunnel to `id`, the attempts counted from 0: a first
    /// failure drops the cached connection and tries again, a second one gives up.
    pub fn tunnel_step(&mut self, id: &EndpointId, attempt: u32, event: TunnelEvent) -> (step:
        TunnelStep)
        requires
            old(self).wf(),
        ensures
            final(self).wf(),
            final(self).roster == old(self).roster,
            step == (match event {
                TunnelEvent::Opened => TunnelStep::Splice,
                _ => if attempt == 0 {
                    TunnelStep::Retry
                } else {
                    TunnelStep::GiveUp
                },
            }),
            final(self).conns@ == (if step == TunnelStep::Retry {
                old(self).conns@.remove(*id)
            } else {
                old(self).conns@
            }),
    {
        match event {
            TunnelEvent::Opened => TunnelStep::Splice,
            _ => {
                if attempt == 0 {
                    self.invalidate(id);
                    TunnelStep::Retry
                } else {
                    TunnelStep::GiveUp
                }
            },
        }
    }

    /// Folds one message of the cluster's topic into the roster.
    pub fn heard(&mut self, msg: ClusterMsg<A>, now: u64) -> (change: RosterChange)
        requires
            old(self).wf(),
        ensures
            final(self).wf(),
            final(self).conns == old(self).conns,
            match msg {
                ClusterMsg::Announce { addr, epoch } => {
                    &&& final(self).roster@ == roster::announced(
                        old(self).roster@,
                        addr,
                        epoch,
                        now,
                    )
                    &&& change == (if old(self).roster@.contains_key(addr.id) {
                        RosterChange::Heard(addr.id)
                    } else {
                        RosterChange::Joined(addr.id)
                    })
                },
                ClusterMsg::Withdraw { id } => {
                    &&& final(self).roster@ == old(self).roster@.remove(id)
                    &&& change == (if old(self).roster@.contains_key(id) {
                        RosterChange::Withdrew(id)
                    } else {
                        RosterChange::Nothing
                    })
                },
            },
    {
        match msg {
            ClusterMsg::Announce { addr, epoch } => {
                let id = addr.id;
                let known = self.roster.entries.contains(&id);
                self.roster.upsert(addr, epoch, now);
                if known {
                    RosterChange::Heard(id)
                } else {
                    RosterChange::Joined(id)
                }
            },
            ClusterMsg::Withdraw { id } => {
                if self.roster.remove(&id) {
                    RosterChange::Withdrew(id)
                } else {
                    RosterChange::Nothing
                }
            },
        }
    }
}

/// What a frontend needs to join its cluster.
pub struct FrontendPlan {
    pub topic: TopicId,
    pub peers: Vec<EndpointId>,
}

/// Reads off the configuration which topic to join and which peers to start from.
pub fn run(cfg: &FrontendConfig) -> (r: Result<FrontendPlan, IdError>)
    ensures
        match r {
            Ok(p) => {
                &&& p.topic.bytes@ == wire::blake3_digest(encode_utf8(cfg.secret@))
                &&& util::all_ids(util::wanted(cfg.bootstrap@)) == Ok::<
                    Seq<EndpointId>,
                    Seq<char>,
                >(p.peers@)
            },
            Err(e) => {
                &&& util::all_ids(util::wanted(cfg.bootstrap@)) == Err::<
                    Seq<EndpointId>,
                    Seq<char>,
                >(e.given@)
                &&& ids::endpoint_key(e.given@) == Err::<Seq<u8>, Seq<char>>(e.detail@)
            },
        },
{
    let topic = topic_from_secret(cfg.secret.as_str());
    match parse_ids(&cfg.bootstrap) {
        Ok(peers) => Ok(FrontendPlan { topic, peers }),
        Err(e) => Err(e),
    }
}

/// The backend that placement picks is determined by the roster: two lowest ids are
/// the same one.
pub proof fn law_placement_is_deterministic<A>(
    m: Map<EndpointId, roster::Entry<A>>,
    a: EndpointId,
    b: EndpointId,
)
    requires
        lowest(m, a),
        lowest(m, b),
    ensures
        a == b,
{
    ids::law_ids_are_totally_ordered(a, b);
}

/// A backend that joins or leaves above the lowest id changes no placement.
pub proof fn law_higher_backends_change_no_placement<A>(
    m: Map<EndpointId, roster::Entry<A>>,
    id: EndpointId,
    other: EndpointId,
    e: roster::Entry<A>,
)
    requires
        lowest(m, id),
        id.before(other),
    ensures
        lowest(m.insert(other, e), id),
        lowest(m.remove(other), id),
{
    ids::law_ids_are_totally_ordered(id, other);
}

}
