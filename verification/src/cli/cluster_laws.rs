//! What the cluster command asks for and shows, call by call.

use crate::cli::cluster;
use crate::cli::cluster::{
    get, render_backends, render_machines, render_members, render_placements, render_status, secs,
    short, Backend, ClusterCmd, Machine, Member, Placement, Printed,
};
use crate::http_laws;
use crate::ids;
use crate::number;
use crate::text;
use crate::text_laws;
use vstd::prelude::*;
use vstd::string::*;
use vstd::utf8::*;

verus! {

// ---- options ----

/// The command is pointed at the URL of its option, of the setting, or of the local port,
/// in this order; it has to be HTTP, and loses its trailing slashes.
pub proof fn law_url_of_the_command(
    cmd: ClusterCmd,
    env_url: Option<String>,
    raw: Seq<char>,
    r: Result<String, String>,
) -> (k: int)
    requires
        call_ensures(ClusterCmd::resolve_url, (&cmd, &env_url), r),
        cmd.url is Some ==> raw == cmd.url->0@,
        cmd.url is None && env_url is Some ==> raw == env_url->0@,
        cmd.url is None && env_url is None ==> raw == "http://127.0.0.1:8080"@,
    ensures
        r is Ok <==> "http://"@.is_prefix_of(raw) || "https://"@.is_prefix_of(raw),
        r is Ok ==> 0 <= k <= raw.len() && r->Ok_0@ == raw.take(k) && (forall|i: int|
            k <= i < raw.len() ==> raw[i] == '/') && (k > 0 ==> raw[k - 1] != '/'),
        r is Err ==> r->Err_0@ == "--url must be an http(s) URL for a cluster frontend (got "@
            + ids::debug_text(raw) + "); frontends listen on TCP, not a unix socket"@,
{
    text_laws::law_run_is_taken_off_the_end(raw, '/')
}

/// The key of the option wins over that of the setting, and an empty one is none.
pub proof fn law_key_of_the_command(
    cmd: ClusterCmd,
    env_url: Option<String>,
    env_key: Option<String>,
    base: Result<String, String>,
    r: Result<(String, Option<String>), String>,
)
    requires
        call_ensures(ClusterCmd::resolve_url, (&cmd, &env_url), base),
        call_ensures(ClusterCmd::run, (&cmd, &env_url, &env_key), r),
    ensures
        r is Ok <==> base is Ok,
        r is Ok ==> {
            let key = r->Ok_0.1;
            &&& r->Ok_0.0@ == base->Ok_0@
            &&& cmd.api_key is Some ==> (key is Some <==> cmd.api_key->0@.len() > 0)
            &&& cmd.api_key is Some && key is Some ==> key->0@ == cmd.api_key->0@
            &&& cmd.api_key is None ==> (key is Some <==> env_key is Some && env_key->0@.len() > 0)
            &&& cmd.api_key is None && key is Some ==> key->0@ == env_key->0@
        },
{
}

/// Each view asks for the paths that it shows; the status, which is shown where no view
/// is named, asks for three.
pub proof fn law_views_ask_for_their_paths(cmd: ClusterCmd, v: Vec<&'static str>, p: Printed)
    requires
        call_ensures(ClusterCmd::dispatch, (&cmd,), v),
        call_ensures(ClusterCmd::printed, (&cmd,), p),
    ensures
        cmd.cmd is None || cmd.cmd->0 is Status ==> v@.len() == 3 && v@[0]@ == "/cluster/roster"@
            && v@[1]@ == "/cluster/sandboxes"@ && v@[2]@ == "/api/v1/machines"@,
        cmd.cmd is Some && cmd.cmd->0 is Backends ==> v@.len() == 1 && v@[0]@ == "/cluster/roster"@,
        cmd.cmd is Some && cmd.cmd->0 is Members ==> v@.len() == 1 && v@[0]@ == "/cluster/members"@,
        cmd.cmd is Some && cmd.cmd->0 is Placements ==> v@.len() == 1 && v@[0]@
            == "/cluster/sandboxes"@,
        cmd.cmd is Some && cmd.cmd->0 is Machines ==> v@.len() == 1 && v@[0]@
            == "/api/v1/machines"@,
        p is Table <==> !cmd.json,
        p is Table && cmd.cmd is Some ==> p->Table_0 == cmd.cmd->0,
        p is Table && cmd.cmd is None ==> p->Table_0 is Status,
        p is Replies <==> cmd.json && (cmd.cmd is None || cmd.cmd->0 is Status),
{
}

/// A reply is good exactly where its status is a success; a missing cluster path says
/// that the target is no frontend, and any other failure tells its status and body.
pub proof fn law_only_successes_are_good(
    base: &str,
    path: &str,
    status: u16,
    body: &str,
    r: Result<(), String>,
)
    requires
        call_ensures(get, (base, path, status, body), r),
    ensures
        r is Ok <==> 200 <= status < 300,
        r is Err && status == 404 && "/cluster/"@.is_prefix_of(path@) ==> r->Err_0@ == base@
            + " has no "@ + path@
            + " — is it a cluster frontend? (a single-process or backend serve has no /cluster endpoints)"@,
        r is Err && !(status == 404 && "/cluster/"@.is_prefix_of(path@)) ==> r->Err_0@ == path@
            + " -> HTTP "@ + number::digits(status as nat) + ": "@ + text::trim(body@),
{
}

/// The messages of the command name what went wrong where.
pub proof fn law_messages(
    base: &str,
    path: &str,
    detail: &str,
    unreachable: String,
    unread: String,
    unparsed: String,
)
    requires
        call_ensures(cluster::unreachable_message, (base, path, detail), unreachable),
        call_ensures(cluster::read_message, (path, detail), unread),
        call_ensures(cluster::parse_message, (path, detail), unparsed),
    ensures
        unreachable@ == "cannot reach "@ + base@ + path@ + ": "@ + detail@,
        unread@ == "read "@ + path@ + ": "@ + detail@,
        unparsed@ == "parse "@ + path@ + ": "@ + detail@,
{
}

// ---- cells ----

/// A cell is its text and as many blanks as it lacks, behind it or before it; a longer
/// text is not cut.
pub proof fn law_cells_are_filled_with_blanks(s: Seq<char>, width: int, i: int)
    requires
        width >= 0,
    ensures
        s.len() >= width ==> cluster::pad_end(s, width) == s && cluster::pad_start(s, width) == s,
        s.len() < width ==> cluster::pad_end(s, width).len() == width && cluster::pad_start(
            s,
            width,
        ).len() == width,
        cluster::pad_end(s, width).take(s.len() as int) == s,
        s.len() < width ==> cluster::pad_start(s, width).skip(width - s.len()) == s,
        s.len() <= i < width ==> cluster::pad_end(s, width)[i] == ' ',
        0 <= i < width - s.len() ==> cluster::pad_start(s, width)[i] == ' ',
{
    let a = cluster::pad_end(s, width);
    let b = cluster::pad_start(s, width);
    assert(a.take(s.len() as int) =~= s);
    if s.len() >= width {
        assert(a =~= s);
        assert(b =~= s);
    } else {
        assert(b.skip(width - s.len()) =~= s);
    }
}

/// An id of up to twelve bytes is shown whole, and a longer one by its first twelve bytes
/// and an ellipsis.
pub proof fn law_long_ids_are_cut(id: &str, head: Seq<char>, tail: Seq<char>, s: String)
    requires
        call_ensures(short, (id,), s),
        id@ == head + tail,
    ensures
        encode_utf8(id@).len() <= 12 ==> s@ == id@,
        encode_utf8(head).len() == 12 && tail.len() > 0 ==> s@ == head + seq!['…'],
{
    reveal_strlit("…");
    assert("…"@ =~= seq!['…']);
    if encode_utf8(head).len() == 12 && tail.len() > 0 {
        http_laws::lemma_encode_concat(head, tail);
        assert(encode_utf8(tail).len() > 0) by {
            reveal_with_fuel(encode_utf8, 2);
        }
        assert(encode_utf8(id@).take(12) =~= encode_utf8(head));
        encode_utf8_decode_utf8(head);
    }
}

/// An id of ASCII characters, as hexadecimal digits are, is cut after twelve of them.
pub proof fn law_digits_of_an_id_are_counted(id: &str, s: String)
    requires
        call_ensures(short, (id,), s),
        is_ascii_chars(id@),
    ensures
        id@.len() <= 12 ==> s@ == id@,
        id@.len() > 12 ==> s@ == id@.take(12) + seq!['…'],
{
    is_ascii_chars_encode_utf8(id@);
    if id@.len() > 12 {
        is_ascii_chars_encode_utf8(id@.take(12));
        assert(id@ =~= id@.take(12) + id@.skip(12));
        law_long_ids_are_cut(id, id@.take(12), id@.skip(12), s);
    } else {
        law_long_ids_are_cut(id, id@, seq![], s);
    }
}

/// An age is shown in whole seconds.
pub proof fn law_ages_are_whole_seconds(age_ms: u64, s: String)
    requires
        call_ensures(secs, (age_ms,), s),
    ensures
        s@ == number::digits((age_ms / 1000) as nat) + seq!['s'],
{
    reveal_strlit("s");
    assert("s"@ =~= seq!['s']);
}

// ---- tables ----

/// What is placed is named: the path of a backend and the template of a machine.
pub proof fn law_names_of_paths_and_templates(m: Map<Seq<char>, Seq<char>>)
    ensures
        cluster::path_name(true) == "direct"@,
        cluster::path_name(false) == "relay"@,
        m.contains_key("e2b.templateID"@) ==> cluster::template_cell(m) == m["e2b.templateID"@],
        !m.contains_key("e2b.templateID"@) ==> cluster::template_cell(m) == "-"@,
{
}

/// The table of backends has a line for each backend, in order, below one head; one
/// backend more is one line more, with its cells in place.
pub proof fn law_one_backend_more_is_one_line_more(
    bs: Vec<Backend>,
    more: Vec<Backend>,
    out: String,
    next: String,
)
    requires
        more@.len() == bs@.len() + 1,
        more@.drop_last() == bs@,
        call_ensures(render_backends, (&bs,), out),
        call_ensures(render_backends, (&more,), next),
    ensures
        bs@.len() == 0 ==> out@ == "no backends connected\n"@,
        ({
            let b = more@.last();
            let head = cluster::pad_end("BACKEND"@, 13) + " "@ + cluster::pad_start("VMS"@, 4)
                + " "@ + cluster::pad_start("CPU"@, 6) + " "@ + cluster::pad_start("MEM_FREE"@, 10)
                + " "@ + cluster::pad_end("PATH"@, 7) + " "@ + cluster::pad_start("AGE"@, 5)
                + "\n"@;
            let row = cluster::pad_end(cluster::short_text(b.id@), 13) + " "@ + cluster::pad_start(
                number::digits(b.capacity.running_vms as nat),
                4,
            ) + " "@ + cluster::pad_start(b.capacity.cpu_used@, 6) + " "@ + cluster::pad_start(
                number::digits(b.capacity.mem_available_mb as nat),
                8,
            ) + "MB "@ + cluster::pad_end(
                if b.direct_path {
                    "direct"@
                } else {
                    "relay"@
                },
                7,
            ) + " "@ + cluster::pad_start(
                number::digits((b.age_ms / 1000) as nat) + "s"@,
                5,
            ) + (if b.capacity.stalled {
                " [STALLED]"@
            } else {
                ""@
            }) + "\n"@;
            next@ == (if bs@.len() == 0 {
                head
            } else {
                out@
            }) + row
        }),
{
    let rows = cluster::backend_rows(bs@);
    let row = cluster::backend_row(more@.last());
    assert(cluster::backend_rows(more@) == rows + row);
    assert(cluster::backends_head() + (rows + row) =~= cluster::backends_head() + rows + row);
    if bs@.len() == 0 {
        assert(cluster::backends_head() + rows =~= cluster::backends_head());
    }
}

/// The table of members likewise.
pub proof fn law_one_member_more_is_one_line_more(
    ms: Vec<Member>,
    more: Vec<Member>,
    out: String,
    next: String,
)
    requires
        more@.len() == ms@.len() + 1,
        more@.drop_last() == ms@,
        call_ensures(render_members, (&ms,), out),
        call_ensures(render_members, (&more,), next),
    ensures
        ms@.len() == 0 ==> out@ == "no members\n"@,
        ({
            let m = more@.last();
            let head = cluster::pad_end("MEMBER"@, 13) + " "@ + cluster::pad_end("ROLE"@, 9) + " "@
                + cluster::pad_end("CONNECTED"@, 10) + " "@ + cluster::pad_start("AGE"@, 5)
                + "\n"@;
            let row = cluster::pad_end(cluster::short_text(m.id@), 13) + " "@ + cluster::pad_end(
                m.role@,
                9,
            ) + " "@ + cluster::pad_end(
                if m.connected {
                    "true"@
                } else {
                    "false"@
                },
                10,
            ) + " "@ + cluster::pad_start(
                number::digits((m.age_ms / 1000) as nat) + "s"@,
                5,
            ) + "\n"@;
            next@ == (if ms@.len() == 0 {
                head
            } else {
                out@
            }) + row
        }),
{
    let rows = cluster::member_rows(ms@);
    let row = cluster::member_row(more@.last());
    assert(cluster::member_rows(more@) == rows + row);
    assert(cluster::members_head() + (rows + row) =~= cluster::members_head() + rows + row);
    if ms@.len() == 0 {
        assert(cluster::members_head() + rows =~= cluster::members_head());
    }
}

/// The table of placements likewise.
pub proof fn law_one_placement_more_is_one_line_more(
    ps: Vec<Placement>,
    more: Vec<Placement>,
    out: String,
    next: String,
)
    requires
        more@.len() == ps@.len() + 1,
        more@.drop_last() == ps@,
        call_ensures(render_placements, (&ps,), out),
        call_ensures(render_placements, (&more,), next),
    ensures
        ps@.len() == 0 ==> out@ == "no sandboxes placed\n"@,
        ({
            let p = more@.last();
            let head = cluster::pad_end("SANDBOX"@, 20) + " "@ + cluster::pad_end("BACKEND"@, 13)
                + "\n"@;
            let row = cluster::pad_end(p.sandbox@, 20) + " "@ + cluster::pad_end(
                cluster::short_text(p.backend@),
                13,
            ) + "\n"@;
            next@ == (if ps@.len() == 0 {
                head
            } else {
                out@
            }) + row
        }),
{
    let rows = cluster::placement_rows(ps@);
    let row = cluster::placement_row(more@.last());
    assert(cluster::placement_rows(more@) == rows + row);
    assert(cluster::placements_head() + (rows + row) =~= cluster::placements_head() + rows + row);
    if ps@.len() == 0 {
        assert(cluster::placements_head() + rows =~= cluster::placements_head());
    }
}

/// The table of machines likewise.
pub proof fn law_one_machine_more_is_one_line_more(
    ms: Vec<Machine>,
    more: Vec<Machine>,
    out: String,
    next: String,
)
    requires
        more@.len() == ms@.len() + 1,
        more@.drop_last() == ms@,
        call_ensures(render_machines, (&ms,), out),
        call_ensures(render_machines, (&more,), next),
    ensures
        ms@.len() == 0 ==> out@ == "no machines\n"@,
        ({
            let m = more@.last();
            let head = cluster::pad_end("MACHINE"@, 20) + " "@ + cluster::pad_end("STATE"@, 10)
                + " "@ + cluster::pad_start("CPU"@, 4) + " "@ + cluster::pad_start("MEM"@, 8)
                + " "@ + "TEMPLATE\n"@;
            let row = cluster::pad_end(m.name@, 20) + " "@ + cluster::pad_end(m.state@, 10) + " "@
                + cluster::pad_start(number::digits(m.cpus as nat), 4) + " "@ + cluster::pad_start(
                number::digits(m.memory_mb as nat),
                6,
            ) + "MB "@ + (if m.metadata@.contains_key("e2b.templateID"@) {
                m.metadata@["e2b.templateID"@]
            } else {
                "-"@
            }) + "\n"@;
            next@ == (if ms@.len() == 0 {
                head
            } else {
                out@
            }) + row
        }),
{
    let rows = cluster::machine_rows(ms@);
    let row = cluster::machine_row(more@.last());
    assert(cluster::machine_rows(more@) == rows + row);
    assert(cluster::machines_head() + (rows + row) =~= cluster::machines_head() + rows + row);
    if ms@.len() == 0 {
        assert(cluster::machines_head() + rows =~= cluster::machines_head());
    }
}

// ---- status ----

/// The machine of a name is the last one that has it.
pub proof fn law_last_machine_of_a_name(ms: Seq<Machine>, name: Seq<char>, k: int)
    requires
        -1 <= k < ms.len(),
        k >= 0 ==> ms[k].name@ == name,
        forall|i: int| k < i < ms.len() ==> (#[trigger] ms[i]).name@ != name,
    ensures
        k >= 0 ==> cluster::machine_named(ms, name) == Some(ms[k]),
        k < 0 ==> cluster::machine_named(ms, name) is None,
    decreases ms.len(),
{
    if ms.len() > 0 && k < ms.len() - 1 {
        let t = ms.drop_last();
        assert forall|i: int| k < i < t.len() implies (#[trigger] t[i]).name@ != name by {
            assert(t[i] == ms[i]);
        }
        law_last_machine_of_a_name(t, name, k);
        assert(ms[ms.len() - 1].name@ != name);
    }
}

/// A placed sandbox is shown with the state, the size and the template of its machine, or
/// as missing from the machine list.
pub proof fn law_placed_sandboxes_are_shown_with_their_machine(p: Placement, ms: Seq<Machine>)
    ensures
        cluster::machine_named(ms, p.sandbox@) is None ==> cluster::placed_row(p, ms) == "    - "@
            + p.sandbox@ + "  (placed here but not in the machine list)\n"@,
        cluster::machine_named(ms, p.sandbox@) matches Some(m) ==> cluster::placed_row(p, ms)
            == "    - "@ + p.sandbox@ + "  ["@ + m.state@ + "]  "@ + number::digits(m.cpus as nat)
            + "cpu/"@ + number::digits(m.memory_mb as nat) + "MB  tmpl="@ + (
        if m.metadata@.contains_key("e2b.templateID"@) {
            m.metadata@["e2b.templateID"@]
        } else {
            "-"@
        }) + "\n"@,
{
}

/// A backend is shown with the sandboxes placed on it, and no others: one placement more
/// is one line more exactly where it is on that backend.
pub proof fn law_backends_show_their_own_sandboxes(
    ps: Seq<Placement>,
    p: Placement,
    backend: Seq<char>,
    ms: Seq<Machine>,
)
    ensures
        cluster::placed_rows(seq![], backend, ms).len() == 0,
        p.backend@ == backend ==> cluster::placed_rows(ps.push(p), backend, ms)
            == cluster::placed_rows(ps, backend, ms) + cluster::placed_row(p, ms),
        p.backend@ != backend ==> cluster::placed_rows(ps.push(p), backend, ms)
            == cluster::placed_rows(ps, backend, ms),
{
    assert(ps.push(p).drop_last() =~= ps);
}

/// A machine that no placement names is shown as an orphan, and no other is: one machine
/// more is one line more exactly where none places it.
pub proof fn law_orphans_are_the_unplaced(ms: Seq<Machine>, m: Machine, ps: Seq<Placement>)
    ensures
        cluster::orphan_rows(seq![], ps).len() == 0,
        (exists|i: int| 0 <= i < ps.len() && (#[trigger] ps[i]).sandbox@ == m.name@)
            ==> cluster::orphan_rows(ms.push(m), ps) == cluster::orphan_rows(ms, ps),
        (forall|i: int| 0 <= i < ps.len() ==> (#[trigger] ps[i]).sandbox@ != m.name@)
            ==> cluster::orphan_rows(ms.push(m), ps) == cluster::orphan_rows(ms, ps) + ("    - "@
            + m.name@ + "  ["@ + m.state@ + "]\n"@),
{
    assert(ms.push(m).drop_last() =~= ms);
}

/// The status counts backends and machines, shows each backend with its load and its own
/// sandboxes, in order, and ends with the orphans, where there are any: one backend more
/// is one block more.
pub proof fn law_one_backend_more_is_one_block_more(
    bs: Vec<Backend>,
    more: Vec<Backend>,
    ps: Vec<Placement>,
    ms: Vec<Machine>,
    out: String,
    next: String,
) -> (blocks: Seq<char>)
    requires
        more@.len() == bs@.len() + 1,
        more@.drop_last() == bs@,
        call_ensures(render_status, (&bs, &ps, &ms), out),
        call_ensures(render_status, (&more, &ps, &ms), next),
    ensures
        ({
            let b = more@.last();
            let head = |n: nat|
                "cluster — "@ + number::digits(n) + " backend(s), "@ + number::digits(ms@.len())
                    + " machine(s)\n\n"@;
            let line = "● backend "@ + cluster::short_text(b.id@) + "  vms="@ + number::digits(
                b.capacity.running_vms as nat,
            ) + " cpu="@ + b.capacity.cpu_used@ + " mem_free="@ + number::digits(
                b.capacity.mem_available_mb as nat,
            ) + "MB "@ + (if b.direct_path {
                "direct"@
            } else {
                "relay"@
            }) + " age="@ + (number::digits((b.age_ms / 1000) as nat) + "s"@) + (
            if b.capacity.stalled {
                "  [STALLED]"@
            } else {
                ""@
            }) + "\n"@;
            let hosted = exists|i: int| 0 <= i < ps@.len() && (#[trigger] ps@[i]).backend@ == b.id@;
            let rows = if hosted {
                cluster::placed_rows(ps@, b.id@, ms@)
            } else {
                "    (no placed sandboxes in the frontend registry)\n"@
            };
            let orphaned = exists|i: int|
                #![trigger ms@[i]]
                0 <= i < ms@.len() && forall|j: int|
                    0 <= j < ps@.len() ==> (#[trigger] ps@[j]).sandbox@ != ms@[i].name@;
            let orphans = if orphaned {
                "\n⚠ machines not attributed to a backend (seen in the merged list, absent from the registry):\n"@
                    + cluster::orphan_rows(ms@, ps@)
            } else {
                Seq::<char>::empty()
            };
            &&& bs@.len() == 0 ==> blocks.len() == 0 && out@ == head(0)
                + "no backends connected\n"@ + orphans
            &&& bs@.len() > 0 ==> out@ == head(bs@.len()) + blocks + orphans
            &&& next@ == head(more@.len()) + (blocks + (line + rows)) + orphans
        }),
{
    let blocks = cluster::status_blocks(bs@, ps@, ms@);
    let b = more@.last();
    assert(cluster::status_blocks(more@, ps@, ms@) == blocks + cluster::status_block(b, ps@, ms@));
    if cluster::any_orphan(ms@, ps@) {
        let i = choose|i: int|
            0 <= i < ms@.len() && !cluster::is_placed(ps@, (#[trigger] ms@[i]).name@);
        assert forall|j: int| 0 <= j < ps@.len() implies (#[trigger] ps@[j]).sandbox@
            != ms@[i].name@ by {}
    }
    blocks
}

}
