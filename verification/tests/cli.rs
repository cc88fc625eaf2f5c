//! The cluster command.

use smolvm_cluster::cli::cluster::{
    get, parse_message, read_message, render_backends, render_machines, render_members,
    render_placements, render_status, secs, short, unreachable_message, Backend, Capacity,
    ClusterCmd, ClusterSub, Machine, Member, Placement, Printed,
};
use smolvm_cluster::string_map::StringMap;

fn cmd(url: Option<&str>) -> ClusterCmd {
    ClusterCmd { cmd: None, url: url.map(|u| u.to_string()), api_key: None, json: false }
}

fn backend(id: &str, mem: u64, age_ms: u64) -> Backend {
    Backend {
        id: id.to_string(),
        direct_path: true,
        age_ms,
        capacity: Capacity {
            cpu_used: format!("{:.1}", 0.0),
            mem_available_mb: mem,
            running_vms: 0,
            stalled: false,
        },
    }
}

fn machine(name: &str, state: &str, template: Option<&str>) -> Machine {
    let mut metadata = StringMap::new();
    if let Some(t) = template {
        metadata.insert("e2b.templateID".to_string(), t.to_string());
    }
    Machine { name: name.to_string(), state: state.to_string(), cpus: 4, memory_mb: 8192, metadata }
}

fn placement(sandbox: &str, backend: &str) -> Placement {
    Placement { sandbox: sandbox.to_string(), backend: backend.to_string() }
}

#[test]
fn short_truncates_long_ids_and_keeps_short_ones() {
    assert_eq!(
        short("0b0821abd4fb3c21548b50b4dea97c3cf"),
        "0b0821abd4fb…"
    );
    assert_eq!(short("short"), "short");
    assert_eq!(short("exactly12chr"), "exactly12chr"); // 12 chars, no ellipsis
}

#[test]
fn secs_floors_milliseconds() {
    assert_eq!(secs(0), "0s");
    assert_eq!(secs(1999), "1s");
    assert_eq!(secs(60_000), "60s");
}

#[test]
fn urls_are_resolved() {
    assert_eq!(cmd(None).resolve_url(&None), Ok("http://127.0.0.1:8080".to_string()));
    assert_eq!(cmd(None).resolve_url(&Some("https://fe/".to_string())), Ok("https://fe".to_string()));
    assert_eq!(cmd(Some("http://x:1//")).resolve_url(&None), Ok("http://x:1".to_string()));
    assert_eq!(
        cmd(Some("unix:///s")).resolve_url(&None),
        Err("--url must be an http(s) URL for a cluster frontend (got \"unix:///s\"); frontends listen on TCP, not a unix socket".to_string())
    );
}

#[test]
fn empty_keys_are_no_keys() {
    let key = |c: &ClusterCmd, e: Option<&str>| c.run(&None, &e.map(|s| s.to_string())).unwrap().1;
    let mut c = cmd(None);
    assert_eq!(key(&c, None), None);
    assert_eq!(key(&c, Some("")), None);
    assert_eq!(key(&c, Some("k")), Some("k".to_string()));
    c.api_key = Some(String::new());
    assert_eq!(key(&c, Some("k")), None);
    c.api_key = Some("own".to_string());
    assert_eq!(key(&c, Some("k")), Some("own".to_string()));
    assert!(cmd(Some("ftp://x")).run(&None, &None).is_err());
}

#[test]
fn each_view_queries_its_paths() {
    let mut c = cmd(None);
    assert_eq!(c.dispatch(), ["/cluster/roster", "/cluster/sandboxes", "/api/v1/machines"]);
    c.cmd = Some(ClusterSub::Backends);
    assert_eq!(c.dispatch(), ["/cluster/roster"]);
    c.cmd = Some(ClusterSub::Members);
    assert_eq!(c.dispatch(), ["/cluster/members"]);
    c.cmd = Some(ClusterSub::Placements);
    assert_eq!(c.dispatch(), ["/cluster/sandboxes"]);
    c.cmd = Some(ClusterSub::Machines);
    assert_eq!(c.dispatch(), ["/api/v1/machines"]);
}

#[test]
fn json_is_printed_where_it_is_asked_for() {
    let mut c = cmd(None);
    assert_eq!(c.printed(), Printed::Table(ClusterSub::Status));
    c.json = true;
    assert_eq!(c.printed(), Printed::Replies);
    c.cmd = Some(ClusterSub::Members);
    assert_eq!(c.printed(), Printed::Reply);
    c.json = false;
    assert_eq!(c.printed(), Printed::Table(ClusterSub::Members));
}

#[test]
fn refusals_are_explained() {
    assert_eq!(get("http://x", "/api/v1/machines", 200, ""), Ok(()));
    assert_eq!(get("http://x", "/api/v1/machines", 299, ""), Ok(()));
    assert_eq!(
        get("http://x", "/cluster/roster", 404, "nope"),
        Err("http://x has no /cluster/roster — is it a cluster frontend? (a single-process or backend serve has no /cluster endpoints)".to_string())
    );
    assert_eq!(
        get("http://x", "/api/v1/machines", 404, " nope\n"),
        Err("/api/v1/machines -> HTTP 404: nope".to_string())
    );
    assert_eq!(unreachable_message("http://x", "/p", "e"), "cannot reach http://x/p: e");
    assert_eq!(read_message("/p", "e"), "read /p: e");
    assert_eq!(parse_message("/p", "e"), "parse /p: e");
}

#[test]
fn backends_are_tabulated() {
    let mut b = backend("0b0821abd4fb3c21", 55809, 2500);
    assert_eq!(
        render_backends(&vec![backend("abc", 100, 1500)]),
        format!(
            "{:<13} {:>4} {:>6} {:>10} {:<7} {:>5}\n{:<13} {:>4} {:>6.1} {:>8}MB {:<7} {:>5}{}\n",
            "BACKEND", "VMS", "CPU", "MEM_FREE", "PATH", "AGE", "abc", 0, 0.0, 100, "direct", "1s", ""
        )
    );
    b.direct_path = false;
    b.capacity.stalled = true;
    b.capacity.running_vms = 12345;
    b.capacity.cpu_used = format!("{:.1}", 2.25);
    let text = render_backends(&vec![b]);
    assert!(text.ends_with(&format!(
        "{:<13} {:>4} {:>6.1} {:>8}MB {:<7} {:>5}{}\n",
        "0b0821abd4fb…", 12345, 2.25, 55809, "relay", "2s", " [STALLED]"
    )));
    assert_eq!(render_backends(&vec![]), "no backends connected\n");
}

#[test]
fn members_are_tabulated() {
    let m = Member { id: "abc".to_string(), role: "backend".to_string(), connected: true, age_ms: 0 };
    let n = Member { id: "d".to_string(), role: "f".to_string(), connected: false, age_ms: 9000 };
    assert_eq!(
        render_members(&vec![m, n]),
        format!(
            "{:<13} {:<9} {:<10} {:>5}\n{:<13} {:<9} {:<10} {:>5}\n{:<13} {:<9} {:<10} {:>5}\n",
            "MEMBER", "ROLE", "CONNECTED", "AGE", "abc", "backend", true, "0s", "d", "f", false, "9s"
        )
    );
    assert_eq!(render_members(&vec![]), "no members\n");
}

#[test]
fn placements_and_machines_are_tabulated() {
    assert_eq!(
        render_placements(&vec![placement("vm-1", "abc")]),
        format!("{:<20} {:<13}\n{:<20} {:<13}\n", "SANDBOX", "BACKEND", "vm-1", "abc")
    );
    assert_eq!(render_placements(&vec![]), "no sandboxes placed\n");
    assert_eq!(
        render_machines(&vec![machine("vm-é", "running", Some("alpine")), machine("b", "x", None)]),
        format!(
            "{:<20} {:<10} {:>4} {:>8} {:<}\n{:<20} {:<10} {:>4} {:>6}MB {:<}\n{:<20} {:<10} {:>4} {:>6}MB {:<}\n",
            "MACHINE", "STATE", "CPU", "MEM", "TEMPLATE", "vm-é", "running", 4, 8192, "alpine", "b",
            "x", 4, 8192, "-"
        )
    );
    assert_eq!(render_machines(&vec![]), "no machines\n");
}

#[test]
fn an_idle_cluster_is_shown() {
    let bs = vec![
        backend("96854028b827aaaaaaaa", 56410, 3000),
        backend("0b0821abd4fbaaaaaaaa", 55809, 2000),
    ];
    assert_eq!(
        render_status(&bs, &vec![], &vec![]),
        "cluster — 2 backend(s), 0 machine(s)\n\n\
         ● backend 96854028b827…  vms=0 cpu=0.0 mem_free=56410MB direct age=3s\n    \
             (no placed sandboxes in the frontend registry)\n\
         ● backend 0b0821abd4fb…  vms=0 cpu=0.0 mem_free=55809MB direct age=2s\n    \
             (no placed sandboxes in the frontend registry)\n"
    );
    assert_eq!(
        render_status(&vec![], &vec![], &vec![]),
        "cluster — 0 backend(s), 0 machine(s)\n\nno backends connected\n"
    );
}

#[test]
fn placed_and_unplaced_machines_are_shown() {
    let mut b = backend("abc", 1, 0);
    b.capacity.stalled = true;
    b.direct_path = false;
    let ps = vec![placement("vm-1", "abc"), placement("gone", "abc"), placement("vm-2", "other")];
    let ms = vec![
        machine("vm-1", "old", None),
        machine("stray", "paused", None),
        machine("vm-1", "running", Some("alpine")),
        machine("vm-2", "running", None),
    ];
    assert_eq!(
        render_status(&vec![b], &ps, &ms),
        "cluster — 1 backend(s), 4 machine(s)\n\n\
         ● backend abc  vms=0 cpu=0.0 mem_free=1MB relay age=0s  [STALLED]\n    \
             - vm-1  [running]  4cpu/8192MB  tmpl=alpine\n    \
             - gone  (placed here but not in the machine list)\n\n\
         ⚠ machines not attributed to a backend (seen in the merged list, absent from the registry):\n    \
             - stray  [paused]\n"
    );
}
