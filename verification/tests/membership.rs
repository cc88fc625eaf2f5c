//! The membership view, the roster, the registry and the node that joins them.

use smolvm_cluster::backends::BackendTable;
use smolvm_cluster::capacity::CapacitySnapshot;
use smolvm_cluster::config::LocalServe;
use smolvm_cluster::ids::EndpointId;
use smolvm_cluster::link::{ClusterNode, NodeKind, PeerPhase, PeerStep};
use smolvm_cluster::membership::{MemberRole, Membership, MEMBER_TTL};
use smolvm_cluster::registry::SandboxRegistry;
use smolvm_cluster::roster::{EndpointAddr, Roster, ROSTER_TTL};
use smolvm_cluster::wire::{membership_token, Control};

const SECOND: u64 = 1_000_000_000;

fn id(n: u8) -> EndpointId {
    EndpointId::from_bytes(&[n; 32])
}

fn addr(n: u8) -> EndpointAddr<Vec<String>> {
    EndpointAddr { id: id(n), addrs: vec!["10.0.0.1:4433".to_string()] }
}

fn frontend(n: u8) -> ClusterNode<&'static str> {
    let kind = NodeKind::Frontend { backends: BackendTable::new() };
    ClusterNode::build(id(n), kind, membership_token("labsecret"))
}

fn backend(n: u8) -> ClusterNode<&'static str> {
    let kind = NodeKind::Backend { local: LocalServe::Tcp("127.0.0.1:1".to_string()) };
    ClusterNode::build(id(n), kind, membership_token("labsecret"))
}

fn cap(mem: u64) -> CapacitySnapshot {
    CapacitySnapshot { mem_available_mb: mem, running_vms: 0, cpu_used_bits: 0, stalled: false }
}

/// Whether a peer that brings `conn` is let in on its first message.
fn let_in(
    node: &mut ClusterNode<&'static str>,
    peer: EndpointId,
    conn: &'static str,
    first: Control,
    now: u64,
) -> bool {
    match node.read_control(peer, PeerPhase::Waiting(conn), Some(first), now) {
        (PeerPhase::LetIn, PeerStep::Go(targets)) => {
            assert!(targets.is_empty());
            true
        }
        (PeerPhase::Refused, PeerStep::Close) => false,
        _ => panic!("let in or refused"),
    }
}

/// What to dial after a later message of a peer that was let in.
fn told(
    node: &mut ClusterNode<&'static str>,
    peer: EndpointId,
    msg: Control,
    now: u64,
) -> Vec<EndpointId> {
    match node.read_control(peer, PeerPhase::LetIn, Some(msg), now) {
        (PeerPhase::LetIn, PeerStep::Go(targets)) => targets,
        _ => panic!("read on"),
    }
}

#[test]
fn upsert_remove_and_stale_epoch() {
    let mut r: Roster<Vec<String>> = Roster::new();
    let a = addr(1);
    let id = a.id;
    r.upsert(addr(1), 5, 0);
    assert_eq!(r.len(), 1);
    // stale epoch ignored (still present, epoch unchanged)
    r.upsert(addr(1), 3, 0);
    assert_eq!(r.snapshot(0)[0].epoch, 5);
    // newer epoch wins
    r.upsert(addr(1), 9, 0);
    assert_eq!(r.snapshot(0)[0].epoch, 9);
    assert!(r.remove(&id));
    assert!(r.is_empty());
}

#[test]
fn the_newest_announcement_counts() {
    let mut r: Roster<Vec<String>> = Roster::new();
    for (n, epoch, at) in [(1, 4, 0), (1, 9, 1), (2, 8, 2), (1, 9, 3), (1, 7, 4), (2, 1, 5)] {
        r.upsert(addr(n), epoch, at);
    }
    let got: Vec<_> = r.snapshot(10).iter().map(|b| (b.id, b.epoch, b.age)).collect();
    assert_eq!(got.len(), 2);
    assert!(got.contains(&(id(1), 9, 7)));
    assert!(got.contains(&(id(2), 8, 8)));
}

#[test]
fn silent_backends_are_swept_off_the_roster() {
    let mut r: Roster<Vec<String>> = Roster::new();
    r.upsert(addr(1), 1, 0);
    r.upsert(addr(2), 1, SECOND);
    assert_eq!(r.sweep(ROSTER_TTL), Vec::<EndpointId>::new());
    assert_eq!(r.sweep(ROSTER_TTL + 1), vec![id(1)]);
    assert_eq!(r.len(), 1);
    let left = r.snapshot(ROSTER_TTL + 1);
    assert_eq!(left[0].id, id(2));
    assert_eq!(left[0].age, ROSTER_TTL + 1 - SECOND);
}

#[test]
fn seeds_are_unconnected_frontends() {
    let mut m = Membership::new(id(1), MemberRole::Backend);
    m.seed_frontends(&vec![id(1), id(2), id(2)], 7);
    assert_eq!(m.frontends(), vec![id(2)]);
    assert!(!m.is_connected(id(2)));
}

#[test]
fn merging_reports_new_frontends_once() {
    let mut m = Membership::new(id(1), MemberRole::Frontend);
    let heard = vec![
        (id(1), MemberRole::Frontend),
        (id(2), MemberRole::Frontend),
        (id(3), MemberRole::Backend),
        (id(2), MemberRole::Frontend),
    ];
    assert_eq!(m.merge(&heard, 0), vec![id(2)]);
    assert_eq!(m.merge(&heard, 1), Vec::<EndpointId>::new());
}

#[test]
fn only_connected_members_are_announced() {
    let mut m = Membership::new(id(1), MemberRole::Frontend);
    m.merge(&vec![(id(2), MemberRole::Frontend)], 0);
    assert_eq!(m.announced_view(), vec![(id(1), MemberRole::Frontend)]);
    m.connected(id(3), MemberRole::Backend, 0);
    assert_eq!(
        m.announced_view(),
        vec![(id(1), MemberRole::Frontend), (id(3), MemberRole::Backend)]
    );
    m.disconnected(id(3), 1);
    assert_eq!(m.announced_view(), vec![(id(1), MemberRole::Frontend)]);
}

#[test]
fn departed_members_age_out_and_connected_ones_stay() {
    let mut m = Membership::new(id(1), MemberRole::Frontend);
    m.connected(id(2), MemberRole::Backend, 0);
    m.connected(id(3), MemberRole::Backend, 0);
    m.disconnected(id(3), SECOND);
    m.sweep(SECOND + MEMBER_TTL - 1);
    assert_eq!(m.snapshot(0).len(), 3);
    m.sweep(SECOND + MEMBER_TTL);
    let left = m.snapshot(2 * SECOND);
    assert_eq!(left.len(), 2);
    assert!(left.contains(&(id(2), MemberRole::Backend, true, 2000)));
}

#[test]
fn placements_are_found_until_forgotten() {
    let mut r = SandboxRegistry::new();
    r.place("vm-1", id(1));
    r.place("vm-2", id(2));
    r.place("vm-1", id(3));
    assert_eq!(r.locate("vm-1"), Some(id(3)));
    assert_eq!(r.locate("vm-9"), None);
    assert!(r.contains("vm-2"));
    assert_eq!(r.len(), 2);
    assert_eq!(r.snapshot().len(), 2);
    assert!(r.forget("vm-1"));
    assert!(!r.forget("vm-1"));
    assert!(!r.contains("vm-1"));
}

#[test]
fn a_backend_dials_every_frontend() {
    let mut n = backend(5);
    n.start(&vec![id(1), id(9)], 0);
    let mut out = n.dial_round(0);
    out.sort_by_key(|i| i.to_bytes());
    assert_eq!(out, vec![id(1), id(9)]);
    // both dials are in flight now
    assert_eq!(n.dial_round(1), Vec::<EndpointId>::new());
    n.dial_done(id(9));
    assert_eq!(n.dial_round(2), vec![id(9)]);
}

#[test]
fn a_frontend_dials_the_higher_frontends_only() {
    let mut n = frontend(5);
    n.start(&vec![id(1), id(5), id(9)], 0);
    assert_eq!(n.dial_round(0), vec![id(9)]);
    let mut other = frontend(9);
    other.start(&vec![id(5)], 0);
    assert_eq!(other.dial_round(0), Vec::<EndpointId>::new());
}

#[test]
fn a_shared_secret_lets_a_backend_in() {
    let mut fe = frontend(1);
    let be = backend(2);
    assert!(let_in(&mut fe, id(2), "conn", be.hello(), 0));
    assert!(fe.membership.is_connected(id(2)));
    match &fe.kind {
        NodeKind::Frontend { backends } => assert_eq!(backends.forward_conn(&id(2)), Some(&"conn")),
        NodeKind::Backend { .. } => panic!("a frontend"),
    }
    told(&mut fe, id(2), Control::Capacity(cap(77)), 1);
    match &fe.kind {
        NodeKind::Frontend { backends } => {
            assert_eq!(backends.snapshot(|_c: &&'static str| true, 1)[0].capacity, Some(cap(77)));
        }
        NodeKind::Backend { .. } => panic!("a frontend"),
    }
    fe.connection_closed(id(2), 2);
    assert!(!fe.membership.is_connected(id(2)));
    match &fe.kind {
        NodeKind::Frontend { backends } => assert_eq!(backends.len(), 0),
        NodeKind::Backend { .. } => panic!("a frontend"),
    }
}

#[test]
fn a_wrong_token_leaves_no_trace() {
    let mut fe = frontend(1);
    let token = membership_token("othersecret");
    let hello = Control::Hello { role: MemberRole::Backend, token };
    assert!(!let_in(&mut fe, id(2), "conn", hello, 0));
    assert!(!let_in(&mut fe, id(2), "conn", Control::Members(vec![]), 0));
    let unreadable = fe.read_control(id(2), PeerPhase::Waiting("conn"), None, 0);
    assert!(matches!(unreadable, (PeerPhase::Refused, PeerStep::Close)));
    // nothing that a refused peer sends is applied
    let heard = Control::Members(vec![(id(4), MemberRole::Frontend)]);
    for msg in [heard, Control::Capacity(cap(5)), backend(2).hello()] {
        let r = fe.read_control(id(2), PeerPhase::Refused, Some(msg), 1);
        assert!(matches!(r, (PeerPhase::Refused, PeerStep::Close)));
    }
    assert_eq!(fe.membership.snapshot(0).len(), 1);
}

#[test]
fn learned_frontends_are_dialed_and_backends_are_not() {
    let mut be = backend(1);
    let heard = || {
        Control::Members(vec![
            (id(4), MemberRole::Frontend),
            (id(6), MemberRole::Backend),
            (id(4), MemberRole::Frontend),
        ])
    };
    assert_eq!(told(&mut be, id(9), heard(), 0), vec![id(4)]);
    assert_eq!(told(&mut be, id(9), heard(), 1), Vec::<EndpointId>::new());
    let ended = be.read_control(id(9), PeerPhase::LetIn, None, 2);
    assert!(matches!(ended, (PeerPhase::LetIn, PeerStep::Stop)));
}

#[test]
fn a_backend_announces_its_capacity_too() {
    let be = backend(1);
    let v = be.announcements(cap(3));
    assert_eq!(v.len(), 2);
    assert!(matches!(&v[0], Control::Members(m) if *m == vec![(id(1), MemberRole::Backend)]));
    assert!(matches!(&v[1], Control::Capacity(c) if *c == cap(3)));
    assert_eq!(frontend(1).announcements(cap(3)).len(), 1);
}

#[test]
fn a_connected_peer_is_not_dialed() {
    let mut n = backend(1);
    n.start(&vec![id(2)], 0);
    let hello = frontend(2).hello();
    assert!(let_in(&mut n, id(2), "conn", hello, 0));
    assert!(!n.maybe_dial(id(2)));
    assert!(!n.maybe_dial(id(1)));
    assert_eq!(n.endpoint_id(), id(1));
}
