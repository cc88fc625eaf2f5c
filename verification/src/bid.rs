//! Capacity bidding: request and reply on one stream.
//!
//! On each new sandbox the frontend solicits every roster member; each backend
//! replies with a score or declines. One stream carries exactly one of each message,
//! framed by the end of the stream.

use crate::capacity;
use crate::capacity::{score, BidSpec, CapacitySnapshot, CapacitySource, Score};
use vstd::prelude::*;

verus! {

/// Most bytes accepted for a single message.
pub const MSG_CAP: usize = 65536;

/// Frontend to backend: score this prospective sandbox.
#[derive(Clone, Copy, PartialEq, Eq, Structural, Debug)]
pub struct Solicit {
    pub spec: BidSpec,
}

/// Backend to frontend: the backend's bid (or a decline). A backend bids the terms of its
/// score; the frontend receives the one number that they make.
#[derive(PartialEq, Eq, Debug)]
pub struct Bid<S> {
    /// Whether the backend is willing and able to host it.
    pub fits: bool,
    /// Higher is better. Meaningful only when `fits`.
    pub score: S,
}

/// The bid of a backend that declines: no fit, and nothing scored.
pub open spec fn declined() -> Bid<Score> {
    Bid { fits: false, score: Score { mem_headroom: 0, vm_penalty: 0, cpu_used_bits: 0 } }
}

/// The bid with which a backend of capacity `snap` answers. What could not be read is
/// declined.
pub open spec fn answer(solicit: Option<Solicit>, snap: CapacitySnapshot) -> Bid<Score> {
    match solicit {
        Some(sol) => if capacity::bids(snap, sol.spec) {
            Bid { fits: true, score: capacity::scored(snap, sol.spec) }
        } else {
            declined()
        },
        None => declined(),
    }
}

/// Answers a solicitation from a capacity.
pub fn bid_for(solicit: Option<Solicit>, snap: &CapacitySnapshot) -> (bid: Bid<Score>)
    ensures
        bid == answer(solicit, *snap),
{
    let none = Bid { fits: false, score: Score { mem_headroom: 0, vm_penalty: 0, cpu_used_bits: 0 } };
    match solicit {
        Some(sol) => match score(snap, &sol.spec) {
            Some(s) => Bid { fits: true, score: s },
            None => none,
        },
        None => none,
    }
}

/// Backend-side bidding: answers each solicitation from local capacity.
pub struct BidProto<S: CapacitySource> {
    pub capacity: S,
}

impl<S: CapacitySource> BidProto<S> {
    pub fn new(capacity: S) -> (p: Self)
        ensures
            p.capacity == capacity,
    {
        BidProto { capacity }
    }

    /// Answers a solicitation from the capacity that the source gives at this moment; what
    /// could not be read is declined.
    pub fn accept(&self, solicit: Option<Solicit>) -> (bid: Bid<Score>)
        ensures
            solicit is Some ==> exists|snap: CapacitySnapshot| #[trigger]
                call_ensures(S::snapshot, (&self.capacity,), snap) && bid == answer(solicit, snap),
            solicit is None ==> bid == declined(),
    {
        match solicit {
            Some(sol) => {
                let snap = self.capacity.snapshot();
                bid_for(Some(sol), &snap)
            },
            None => Bid {
                fits: false,
                score: Score { mem_headroom: 0, vm_penalty: 0, cpu_used_bits: 0 },
            },
        }
    }
}

/// What the frontend makes of one backend's reply: the bid, or `None` where no reply
/// came in time or the backend declined.
pub fn solicit_one<S>(reply: Option<Bid<S>>) -> (r: Option<Bid<S>>)
    ensures
        r == (if reply is Some && reply->0.fits {
            reply
        } else {
            None
        }),
{
    match reply {
        Some(bid) => if bid.fits {
            Some(bid)
        } else {
            None
        },
        None => None,
    }
}

/// A backend's bid counts exactly where the backend is healthy and the sandbox fits.
pub proof fn law_bid_counts_iff_it_fits(sol: Solicit, snap: CapacitySnapshot)
    ensures
        answer(Some(sol), snap).fits == capacity::bids(snap, sol.spec),
        !answer(None, snap).fits,
{
}

}
