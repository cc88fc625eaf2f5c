//! Capacity, bids and the table of connected backends.

use smolvm_cluster::backends::BackendTable;
use smolvm_cluster::bid::{bid_for, solicit_one, Bid, BidProto, Solicit};
use smolvm_cluster::capacity::{score, BidSpec, CapacitySnapshot, CapacitySource, Score};
use smolvm_cluster::ids::EndpointId;

fn snap(mem: u64, vms: u32) -> CapacitySnapshot {
    CapacitySnapshot {
        mem_available_mb: mem,
        running_vms: vms,
        cpu_used_bits: 0.0f64.to_bits(),
        stalled: false,
    }
}

fn id(n: u8) -> EndpointId {
    EndpointId::from_bytes(&[n; 32])
}

#[test]
fn no_bid_when_stalled_or_too_big() {
    let spec = BidSpec { mem_mb: 1024, vcpus: 2 };
    let mut s = snap(8192, 0);
    s.stalled = true;
    assert!(score(&s, &spec).is_none());
    assert!(score(&snap(512, 0), &spec).is_none()); // 1024 > 512
}

#[test]
fn more_free_ram_scores_higher_and_vms_break_ties() {
    let spec = BidSpec { mem_mb: 1024, vcpus: 2 };
    let above = |a: Option<Score>, b: Option<Score>| a.unwrap().is_above(&b.unwrap());
    assert!(above(score(&snap(16384, 0), &spec), score(&snap(8192, 0), &spec)));
    // same RAM, fewer running VMs wins
    assert!(above(score(&snap(8192, 1), &spec), score(&snap(8192, 4), &spec)));
}

#[test]
fn a_score_has_exact_terms() {
    let mut s = snap(8192, 3);
    s.cpu_used_bits = 1.5f64.to_bits();
    let got = score(&s, &BidSpec { mem_mb: 1024, vcpus: 1 }).unwrap();
    assert_eq!(got.mem_headroom, 7168);
    assert_eq!(got.vm_penalty, 1536);
    assert_eq!(f64::from_bits(got.cpu_used_bits), 1.5);
}

#[test]
fn memory_dominates_the_vm_count() {
    let spec = BidSpec { mem_mb: 1024, vcpus: 1 };
    let mut roomy = snap(8193, 40);
    roomy.cpu_used_bits = 64.0f64.to_bits();
    let a = score(&roomy, &spec).unwrap();
    let b = score(&snap(8192, 0), &spec).unwrap();
    assert!(a.is_above(&b));
    assert!(!b.is_above(&a));
    assert!(!a.is_above(&a));
}

#[test]
fn a_sandbox_of_exactly_the_free_memory_is_bid_on() {
    let got = score(&snap(1024, 0), &BidSpec { mem_mb: 1024, vcpus: 1 }).unwrap();
    assert_eq!(got.mem_headroom, 0);
}

#[test]
fn a_smaller_sandbox_scores_no_less() {
    let s = snap(4096, 1);
    let small = score(&s, &BidSpec { mem_mb: 512, vcpus: 1 }).unwrap();
    let large = score(&s, &BidSpec { mem_mb: 2048, vcpus: 1 }).unwrap();
    assert!(!large.is_above(&small));
}

#[test]
fn a_bid_answers_what_fits_and_declines_the_rest() {
    let s = snap(2048, 0);
    let fits = bid_for(Some(Solicit { spec: BidSpec { mem_mb: 1024, vcpus: 1 } }), &s);
    assert!(fits.fits);
    assert_eq!(fits.score.mem_headroom, 1024);
    let big = bid_for(Some(Solicit { spec: BidSpec { mem_mb: 4096, vcpus: 1 } }), &s);
    let none = Score { mem_headroom: 0, vm_penalty: 0, cpu_used_bits: 0 };
    assert_eq!(big, Bid { fits: false, score: none });
    assert_eq!(bid_for(None, &s), Bid { fits: false, score: none });
}

struct Fixed(CapacitySnapshot);

impl CapacitySource for Fixed {
    fn snapshot(&self) -> CapacitySnapshot {
        self.0
    }
}

#[test]
fn bidding_asks_the_source() {
    let proto = BidProto::new(Fixed(snap(2048, 2)));
    let solicit = Solicit { spec: BidSpec { mem_mb: 1024, vcpus: 1 } };
    let bid = proto.accept(Some(solicit));
    assert!(bid.fits);
    assert_eq!(bid.score.vm_penalty, 1024);
    assert!(!proto.accept(None).fits);
}

#[test]
fn only_a_fitting_reply_counts() {
    let score = Score { mem_headroom: 5, vm_penalty: 0, cpu_used_bits: 0 };
    assert_eq!(solicit_one(Some(Bid { fits: true, score })), Some(Bid { fits: true, score }));
    assert_eq!(solicit_one(Some(Bid { fits: false, score })), None);
    assert_eq!(solicit_one::<Score>(None), None);
}

#[test]
fn the_best_backend_comes_first() {
    let mut t: BackendTable<&'static str> = BackendTable::new();
    t.register(id(1), "one", 0);
    t.register(id(2), "two", 0);
    t.register(id(3), "three", 0);
    t.register(id(4), "four", 0);
    t.update_capacity(id(1), snap(2048, 0), 1);
    t.update_capacity(id(2), snap(8192, 0), 1);
    t.update_capacity(id(3), snap(512, 0), 1);
    t.update_capacity(id(9), snap(9999, 0), 1);
    let spec = BidSpec { mem_mb: 1024, vcpus: 1 };
    let best = t.best_for(spec, |_s: Score| 5);
    let names: Vec<&str> = best.iter().map(|c| *c.conn).collect();
    // the third is too small, the fourth told nothing, the ninth is not connected
    assert_eq!(names, ["two", "one"]);
    assert_eq!(best[0].id, id(2));
    assert_eq!(best[0].rank, 5);
    assert_eq!(best[1].score.mem_headroom, 1024);
}

fn busy(mem: u64, vms: u32, cpu: f64) -> CapacitySnapshot {
    CapacitySnapshot { cpu_used_bits: cpu.to_bits(), ..snap(mem, vms) }
}

#[test]
fn the_rank_weighs_vms_and_load_at_equal_memory() {
    let mut t: BackendTable<u8> = BackendTable::new();
    let fleet = [
        (1, busy(8192, 1, 4.0)),
        (2, busy(8192, 2, 0.0)),
        (3, busy(8193, 7, 9.0)),
        (4, busy(8192, 0, 8.0)),
        (5, busy(8192, 3, 0.0)),
    ];
    for (n, cap) in fleet {
        t.register(id(n), n, 0);
        t.update_capacity(id(n), cap, 0);
    }
    let rank = |s: Score| {
        let cost = s.vm_penalty as f64 + f64::from_bits(s.cpu_used_bits) * 256.0;
        -(cost as i64)
    };
    let best = t.best_for(BidSpec { mem_mb: 1024, vcpus: 1 }, rank);
    let order: Vec<u8> = best.iter().map(|c| *c.conn).collect();
    // most memory first, then by the cost: 1024 before 1536, 1536 and 2048; of equal
    // costs the fewer VMs first
    assert_eq!(order, [3, 2, 1, 5, 4]);
    for (i, c) in best.iter().enumerate() {
        for later in &best[i..] {
            assert!(!later.score.is_above(&c.score));
        }
    }
}

#[test]
fn vms_do_not_outrank_load() {
    let spec = BidSpec { mem_mb: 1024, vcpus: 2 };
    let loaded = score(&busy(8192, 1, 4.0), &spec).unwrap();
    let idle = score(&busy(8192, 2, 0.0), &spec).unwrap();
    assert!(!loaded.is_above(&idle));
    assert!(!idle.is_above(&loaded));
}

#[test]
fn a_backend_is_listed_while_it_is_connected() {
    let mut t: BackendTable<u8> = BackendTable::new();
    assert_eq!(t.len(), 0);
    t.register(id(1), 10, 0);
    t.register(id(1), 11, 5);
    assert_eq!(t.len(), 1);
    assert_eq!(t.forward_conn(&id(1)), Some(&11));
    assert_eq!(t.forward_conn(&id(2)), None);
    assert_eq!(t.all(), vec![(id(1), &11)]);
    assert!(t.remove(&id(1)));
    assert!(!t.remove(&id(1)));
    assert_eq!(t.len(), 0);
}

#[test]
fn the_table_is_shown_with_ages() {
    let mut t: BackendTable<bool> = BackendTable::new();
    t.register(id(1), true, 1_000_000);
    t.update_capacity(id(1), snap(7, 1), 2_000_000);
    let rows = t.snapshot(|direct: &bool| *direct, 5_500_000);
    assert_eq!(rows.len(), 1);
    assert_eq!(rows[0].id, id(1));
    assert!(rows[0].direct);
    assert_eq!(rows[0].capacity, Some(snap(7, 1)));
    assert_eq!(rows[0].age_ms, 3);
}
