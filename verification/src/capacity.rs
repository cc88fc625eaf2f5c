//! The capacity boundary between the cluster transport and the serve engine.
//!
//! A backend scores each solicited sandbox from cheap local signals. The scoring
//! lives here (shared, testable); the *signals* come from the serve engine.

use vstd::prelude::*;

verus! {

/// A point-in-time view of a backend's spare capacity.
#[derive(Clone, Copy, PartialEq, Eq, Structural, Debug)]
pub struct CapacitySnapshot {
    /// Host memory available right now, in MiB.
    pub mem_available_mb: u64,
    /// VMs currently running on this backend.
    pub running_vms: u32,
    /// vCPU-equivalents actively in use across this backend's VMs, as the bits of the
    /// 64-bit floating-point number that was measured.
    pub cpu_used_bits: u64,
    /// The runtime heartbeat has gone stale: the node is unhealthy; don't bid.
    pub stalled: bool,
}

/// What a new sandbox is expected to need.
#[derive(Clone, Copy, PartialEq, Eq, Structural, Debug)]
pub struct BidSpec {
    pub mem_mb: u64,
    pub vcpus: u32,
}

/// The exact terms of a score, by which backends are ordered: memory headroom first,
/// then the penalty for running VMs and that for the CPU load, taken together.
#[derive(Clone, Copy, PartialEq, Eq, Structural, Debug)]
pub struct Score {
    /// Memory left over once the sandbox is placed, in MiB. More is better.
    pub mem_headroom: u64,
    /// 512 for each running VM. Less is better.
    pub vm_penalty: u64,
    /// The vCPUs in use, as in the snapshot. Less is better.
    pub cpu_used_bits: u64,
}

impl Score {
    /// Whether this score is the higher one whatever a vCPU in use costs: by more
    /// headroom, or by fewer running VMs at equal headroom and equal load. How VMs weigh
    /// against load is not decided here.
    pub open spec fn outranks(self, o: Score) -> bool {
        self.mem_headroom > o.mem_headroom || (self.mem_headroom == o.mem_headroom
            && self.cpu_used_bits == o.cpu_used_bits && self.vm_penalty < o.vm_penalty)
    }

    /// Whether this score is the higher one whatever a vCPU in use costs.
    pub fn is_above(&self, o: &Score) -> (r: bool)
        ensures
            r == self.outranks(*o),
    {
        self.mem_headroom > o.mem_headroom || (self.mem_headroom == o.mem_headroom
            && self.cpu_used_bits == o.cpu_used_bits && self.vm_penalty < o.vm_penalty)
    }
}

/// Whether a backend bids at all: it is healthy and the sandbox fits.
pub open spec fn bids(snap: CapacitySnapshot, spec: BidSpec) -> bool {
    !snap.stalled && spec.mem_mb <= snap.mem_available_mb
}

/// The terms of the score of a backend that bids.
pub open spec fn scored(snap: CapacitySnapshot, spec: BidSpec) -> Score {
    Score {
        mem_headroom: (snap.mem_available_mb - spec.mem_mb) as u64,
        vm_penalty: (snap.running_vms * 512) as u64,
        cpu_used_bits: snap.cpu_used_bits,
    }
}

/// Scores a solicited sandbox. `None` means "don't bid" (can't fit, or unhealthy);
/// otherwise higher is better. Memory headroom dominates, since it is the binding
/// constraint for microVMs, with the running-VM count and the CPU load as spread
/// tie-breakers so that equal-RAM nodes fill evenly.
pub fn score(snap: &CapacitySnapshot, spec: &BidSpec) -> (r: Option<Score>)
    ensures
        r == (if bids(*snap, *spec) {
            Some(scored(*snap, *spec))
        } else {
            None::<Score>
        }),
{
    if snap.stalled {
        return None;
    }
    if spec.mem_mb > snap.mem_available_mb {
        return None;  // hard reject: won't fit
    }
    Some(
        Score {
            mem_headroom: snap.mem_available_mb - spec.mem_mb,
            vm_penalty: snap.running_vms as u64 * 512,
            cpu_used_bits: snap.cpu_used_bits,
        },
    )
}

/// Only the room that a sandbox leaves counts: with as much more memory asked for as is
/// free in addition, a backend bids as before, and as well.
pub proof fn law_only_the_room_left_counts(
    a: CapacitySnapshot,
    s: BidSpec,
    r: Option<Score>,
    b: CapacitySnapshot,
    t: BidSpec,
    q: Option<Score>,
)
    requires
        call_ensures(score, (&a, &s), r),
        call_ensures(score, (&b, &t), q),
        a.stalled == b.stalled,
        a.mem_available_mb - s.mem_mb == b.mem_available_mb - t.mem_mb,
    ensures
        r is Some <==> q is Some,
        r is Some ==> r->0.mem_headroom == q->0.mem_headroom,
        r is Some && a.running_vms == b.running_vms && a.cpu_used_bits == b.cpu_used_bits ==> r
            == q,
{
}

/// A backend bids exactly where it is healthy and has at least as much free memory as the
/// sandbox needs, and what it scores is what is then left: whatever else it runs, and
/// whatever vCPUs are asked for, keeps no backend from bidding.
pub proof fn law_every_backend_with_room_bids(
    snap: CapacitySnapshot,
    spec: BidSpec,
    r: Option<Score>,
)
    requires
        call_ensures(score, (&snap, &spec), r),
    ensures
        r is None <==> snap.stalled || spec.mem_mb > snap.mem_available_mb,
        r is Some ==> r->0.mem_headroom == snap.mem_available_mb - spec.mem_mb && r->0.vm_penalty
            == snap.running_vms * 512 && r->0.cpu_used_bits == snap.cpu_used_bits,
        bids(snap, spec) <==> !snap.stalled && spec.mem_mb <= snap.mem_available_mb,
{
}

/// Memory headroom dominates: of two bidding backends the one with more free memory
/// outranks the other, whatever VMs run and whatever the CPU load. With equal memory
/// and equal load the one with fewer running VMs does.
pub proof fn law_more_room_scores_higher(a: CapacitySnapshot, b: CapacitySnapshot, spec: BidSpec)
    requires
        bids(a, spec),
        bids(b, spec),
    ensures
        a.mem_available_mb > b.mem_available_mb ==> scored(a, spec).outranks(scored(b, spec)),
        a.mem_available_mb == b.mem_available_mb && a.cpu_used_bits == b.cpu_used_bits ==> (
        scored(a, spec).outranks(scored(b, spec)) <==> a.running_vms < b.running_vms),
{
}

/// Scores are ordered: none outranks itself or one that outranks it, and what outranks
/// is passed on.
pub proof fn law_scores_are_ordered(a: Score, b: Score, c: Score)
    ensures
        !a.outranks(a),
        a.outranks(b) ==> !b.outranks(a),
        a.outranks(b) && b.outranks(c) ==> a.outranks(c),
{
}

/// A larger sandbox is never bid on where a smaller one is not, and never scores higher.
pub proof fn law_bids_shrink_with_size(snap: CapacitySnapshot, small: BidSpec, large: BidSpec)
    requires
        small.mem_mb <= large.mem_mb,
        bids(snap, large),
    ensures
        bids(snap, small),
        !scored(snap, large).outranks(scored(snap, small)),
{
}

/// Where a backend's capacity comes from.
pub trait CapacitySource {
    /// The capacity at this moment.
    fn snapshot(&self) -> CapacitySnapshot;
}

/// A score is above another whatever a vCPU in use costs exactly where it has more headroom,
/// or as much with the same load and fewer running VMs.
pub proof fn law_headroom_then_vms_decide(a: Score, b: Score, r: bool)
    requires
        call_ensures(Score::is_above, (&a, &b), r),
    ensures
        a.mem_headroom > b.mem_headroom ==> r,
        a.mem_headroom < b.mem_headroom ==> !r,
        a.mem_headroom == b.mem_headroom && a.cpu_used_bits != b.cpu_used_bits ==> !r,
        a.mem_headroom == b.mem_headroom && a.cpu_used_bits == b.cpu_used_bits ==> (r
            <==> a.vm_penalty < b.vm_penalty),
        r == a.outranks(b),
{
}

}
