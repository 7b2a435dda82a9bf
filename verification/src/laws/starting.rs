//! How a request becomes a process: what it refers to, and what is noted and answered.
use crate::json;
use crate::json::Js;
use crate::laws::fields;
use crate::laws::running;
use crate::laws::shell as line;
use crate::names::NameMap;
use crate::order;
use crate::ports;
use crate::process;
use crate::process::{ProcessEntry, ProcessState};
use crate::protocol::{Response, RunArgs};
use crate::psyfile;
use crate::psyfile::{DependencyView, ProbeConfig, Psyfile, UnitDef};
use crate::recipe;
use crate::root;
use crate::root::life::ExitInfo;
use crate::root::life::ExitStep;
use crate::root::run;
use crate::root::run::{RunStep, SpawnRequest, Spawned};
use crate::root::SharedRoot;
use crate::shell;
use crate::text;
use crate::time::Timestamp;
use vstd::prelude::*;

verus! {

// ---------------------------------------------------------------------------
// References
// ---------------------------------------------------------------------------

proof fn lemma_port_var(s: Seq<(Seq<char>, u16)>, suffix: Seq<char>, i: int)
    requires
        0 <= i < s.len(),
        forall|j: int| i < j < s.len() ==> (#[trigger] s[j]).0 != s[i].0,
    ensures
        ports::port_vars(s, suffix).dom().contains("port."@ + s[i].0 + suffix),
        ports::port_vars(s, suffix)["port."@ + s[i].0 + suffix] == text::decimal(s[i].1 as nat),
    decreases s.len(),
{
    if i < s.len() - 1 {
        let rest = s.drop_last();
        assert forall|j: int| i < j < rest.len() implies (#[trigger] rest[j]).0 != rest[i].0 by {
            assert(rest[j] == s[j] && rest[i] == s[i]);
        }
        lemma_port_var(rest, suffix, i);
        let a = "port."@ + s[i].0 + suffix;
        let b = "port."@ + s.last().0 + suffix;
        if a == b {
            let h = "port."@.len() as int;
            let l = a.len() - suffix.len();
            assert(a.subrange(h, l) =~= s[i].0);
            assert(b.subrange(h, l) =~= s.last().0);
            assert(s[s.len() - 1].0 != s[i].0);
        }
    }
}

proof fn lemma_no_port_var(s: Seq<(Seq<char>, u16)>, suffix: Seq<char>, key: Seq<char>)
    requires
        forall|j: int| 0 <= j < s.len() ==> "port."@ + (#[trigger] s[j]).0 + suffix != key,
    ensures
        !ports::port_vars(s, suffix).dom().contains(key),
    decreases s.len(),
{
    if s.len() > 0 {
        let rest = s.drop_last();
        assert forall|j: int| 0 <= j < rest.len() implies "port."@ + (#[trigger] rest[j]).0 + suffix
            != key by {
            assert(rest[j] == s[j]);
        }
        lemma_no_port_var(rest, suffix, key);
        assert("port."@ + s[s.len() - 1].0 + suffix != key);
    }
}

proof fn lemma_not_a_port(s: Seq<(Seq<char>, u16)>, suffix: Seq<char>, key: Seq<char>)
    requires
        !text::starts_with(key, "port."@),
    ensures
        !ports::port_vars(s, suffix).dom().contains(key),
{
    assert forall|j: int| 0 <= j < s.len() implies "port."@ + (#[trigger] s[j]).0 + suffix != key by {
        let k = "port."@ + s[j].0 + suffix;
        assert(k.subrange(0, "port."@.len() as int) =~= "port."@);
    }
    lemma_no_port_var(s, suffix, key);
}

proof fn lemma_deps_without_ports(
    r: root::RootView,
    deps: Seq<DependencyView>,
    key: Seq<char>,
)
    requires
        !text::starts_with(key, "port."@),
    ensures
        !run::dep_port_vars(r, deps).dom().contains(key),
    decreases deps.len(),
{
    if deps.len() > 0 {
        lemma_deps_without_ports(r, deps.drop_last(), key);
        let d = deps.last().name;
        if r.table.dom().contains(d) {
            lemma_not_a_port(r.table[d].ports, "@"@ + d, key);
        }
    }
}

/// Whether the names of the ports of all that is depended on are free of `@`.
pub open spec fn plain_port_names(r: root::RootView, deps: Seq<DependencyView>) -> bool {
    forall|i: int, j: int|
        0 <= i < deps.len() && 0 <= j < r.table[deps[i].name].ports.len()
            ==> !(#[trigger] r.table[deps[i].name].ports[j]).0.contains('@')
}

proof fn lemma_dep_port(
    r: root::RootView,
    deps: Seq<DependencyView>,
    m: int,
    i: int,
)
    requires
        0 <= m < deps.len(),
        r.table.dom().contains(deps[m].name),
        0 <= i < r.table[deps[m].name].ports.len(),
        forall|j: int|
            i < j < r.table[deps[m].name].ports.len() ==> (
            #[trigger] r.table[deps[m].name].ports[j]).0 != r.table[deps[m].name].ports[i].0,
        plain_port_names(r, deps),
    ensures
        ({
            let p = r.table[deps[m].name].ports[i];
            let key = "port."@ + p.0 + ("@"@ + deps[m].name);
            run::dep_port_vars(r, deps).dom().contains(key) && run::dep_port_vars(r, deps)[key]
                == text::decimal(p.1 as nat)
        }),
    decreases deps.len(),
{
    let d = deps[m].name;
    let s = r.table[d].ports;
    let key = "port."@ + s[i].0 + ("@"@ + d);
    let last = deps.last().name;
    let rest = deps.drop_last();
    if last == d {
        lemma_port_var(s, "@"@ + d, i);
    } else {
        assert(m < rest.len());
        assert(rest[m] == deps[m]);
        assert forall|a: int, j: int|
            0 <= a < rest.len() && 0 <= j < r.table[rest[a].name].ports.len() implies !(
        #[trigger] r.table[rest[a].name].ports[j]).0.contains('@') by {
            assert(rest[a] == deps[a]);
            assert(!r.table[deps[a].name].ports[j].0.contains('@'));
        }
        lemma_dep_port(r, rest, m, i);
        if r.table.dom().contains(last) {
            let t = r.table[last].ports;
            assert(!r.table[deps[m].name].ports[i].0.contains('@'));
            assert forall|j: int| 0 <= j < t.len() implies "port."@ + (#[trigger] t[j]).0 + ("@"@
                + last) != key by {
                assert(!r.table[deps[deps.len() - 1].name].ports[j].0.contains('@'));
                lemma_at(t[j].0, last, s[i].0, d);
            }
            lemma_no_port_var(t, "@"@ + last, key);
        }
    }
}

proof fn lemma_at(p: Seq<char>, d: Seq<char>, q: Seq<char>, e: Seq<char>)
    requires
        !p.contains('@'),
        !q.contains('@'),
        d != e,
    ensures
        "port."@ + p + ("@"@ + d) != "port."@ + q + ("@"@ + e),
{
    reveal_strlit("@");
    let a = "port."@ + p + ("@"@ + d);
    let b = "port."@ + q + ("@"@ + e);
    if a == b {
        let h = "port."@.len() as int;
        if p.len() < q.len() {
            assert(a[h + p.len()] == '@');
            assert(b[h + p.len()] == q[p.len() as int]);
            assert(q.contains('@'));
        } else if q.len() < p.len() {
            assert(b[h + q.len()] == '@');
            assert(a[h + q.len()] == p[q.len() as int]);
            assert(p.contains('@'));
        } else {
            assert(a.skip(h + p.len() + 1) =~= d);
            assert(b.skip(h + p.len() + 1) =~= e);
        }
    }
}

/// A reference in a unit stands for a port of the process, for a port of something that the
/// unit depends on, for a variable of the request, else of the unit, else for where the
/// root is, else for a variable of the host, and for nothing where none of them has the
/// name.
pub proof fn lemma_references_of_a_unit(
    root: &mut SharedRoot,
    a: RunArgs,
    unit: UnitDef,
    host: NameMap<String>,
    given: Vec<(String, u16)>,
    r: SpawnRequest,
    name: Seq<char>,
    i: int,
    m: int,
)
    requires
        call_ensures(SharedRoot::prepare_unit, (root, &a, &unit, &host, &given), r),
        unit.working_dir is Some,
        unit.working_dir->0@ == "${"@ + name + "}"@,
        forall|j: int| 0 <= j < name.len() ==> #[trigger] name[j] != '{' && name[j] != '}',
        !text::contains(name, ":-"@),
    ensures
        r.working_dir is Some,
        0 <= i < given@.len() && name == "port."@ + given@[i].0@ && (forall|j: int|
            i < j < given@.len() ==> (#[trigger] given@[j]).0@ != given@[i].0@)
            ==> r.working_dir->0@ == text::decimal(given@[i].1 as nat),
        ({
            let deps = unit@.depends_on;
            let d = deps[m].name;
            let p = old(root)@.table[d].ports;
            0 <= m < deps.len() && old(root)@.table.dom().contains(d) && 0 <= i < p.len() && name
                == "port."@ + p[i].0 + ("@"@ + d) && (forall|j: int|
                i < j < p.len() ==> (#[trigger] p[j]).0 != p[i].0) && plain_port_names(
                old(root)@,
                deps,
            ) && (forall|j: int| 0 <= j < given@.len() ==> !(#[trigger] given@[j]).0@.contains('@'))
                ==> r.working_dir->0@ == text::decimal(p[i].1 as nat)
        }),
        !text::starts_with(name, "port."@) ==> {
            &&& a.env@.dom().contains(name) ==> r.working_dir->0@ == a.env@[name]@
            &&& !a.env@.dom().contains(name) && unit.env@.dom().contains(name)
                ==> r.working_dir->0@ == unit.env@[name]@
            &&& !a.env@.dom().contains(name) && !unit.env@.dom().contains(name) ==> {
                &&& name == "PSY_SOCK"@ ==> r.working_dir->0@ == old(root)@.psy_sock
                &&& name == "PSY_ROOT_PID"@ ==> r.working_dir->0@ == text::decimal(
                    old(root)@.psy_root_pid as nat,
                )
                &&& name != "PSY_SOCK"@ && name != "PSY_ROOT_PID"@ && host@.dom().contains(name)
                    ==> r.working_dir->0@ == host@[name]@
                &&& name != "PSY_SOCK"@ && name != "PSY_ROOT_PID"@ && !host@.dom().contains(name)
                    ==> r.working_dir->0@.len() == 0
            }
        },
{
    reveal_strlit("PSY_SOCK");
    reveal_strlit("PSY_ROOT_PID");
    assert("PSY_SOCK"@.len() == 8 && "PSY_ROOT_PID"@.len() == 12);
    let own = psyfile::env_view(unit.env).union_prefer_right(psyfile::env_view(a.env));
    let deps = psyfile::deps_view(unit.depends_on@);
    let g = ports::given(given@);
    let mine = ports::port_vars(g, ""@);
    let theirs = run::dep_port_vars(old(root)@, deps);
    let known = run::known_ports(old(root)@, deps, g);
    let seen = root::visible_vars(psyfile::env_view(host), old(root)@, own);
    let vars = seen.union_prefer_right(known);
    line::lemma_single_reference(name, vars);
    assert(text::opt_text(r.working_dir) == Some(
        shell::interpolated(unit.working_dir->0@, vars),
    ));
    assert(g.len() == given@.len());
    if 0 <= i < given@.len() && name == "port."@ + given@[i].0@ && (forall|j: int|
        i < j < given@.len() ==> (#[trigger] given@[j]).0@ != given@[i].0@) {
        assert(g[i] == (given@[i].0@, given@[i].1));
        assert forall|j: int| i < j < g.len() implies (#[trigger] g[j]).0 != g[i].0 by {
            assert(g[j].0 == given@[j].0@);
        }
        lemma_port_var(g, ""@, i);
        reveal_strlit("");
        assert("port."@ + g[i].0 + ""@ =~= name);
    }
    let d = deps[m].name;
    let p = old(root)@.table[d].ports;
    if 0 <= m < deps.len() && old(root)@.table.dom().contains(d) && 0 <= i < p.len() && name
        == "port."@ + p[i].0 + ("@"@ + d) && (forall|j: int|
        i < j < p.len() ==> (#[trigger] p[j]).0 != p[i].0) && plain_port_names(old(root)@, deps)
        && (forall|j: int| 0 <= j < given@.len() ==> !(#[trigger] given@[j]).0@.contains('@')) {
        lemma_dep_port(old(root)@, deps, m, i);
        reveal_strlit("@");
        reveal_strlit("");
        assert forall|j: int| 0 <= j < g.len() implies "port."@ + (#[trigger] g[j]).0 + ""@
            != name by {
            let k = "port."@ + g[j].0 + ""@;
            let h = "port."@.len() as int;
            assert(g[j].0 == given@[j].0@);
            if k == name {
                let x = h + p[i].0.len();
                assert(name[x] == '@');
                assert(k[x] == g[j].0[p[i].0.len() as int]);
                assert(g[j].0.contains('@'));
            }
        }
        lemma_no_port_var(g, ""@, name);
    }
    if !text::starts_with(name, "port."@) {
        lemma_not_a_port(g, ""@, name);
        lemma_deps_without_ports(old(root)@, deps, name);
        assert(!known.dom().contains(name));
        assert(psyfile::env_view(a.env).dom().contains(name) <==> a.env@.dom().contains(name));
        assert(psyfile::env_view(unit.env).dom().contains(name) <==> unit.env@.dom().contains(
            name,
        ));
        assert(psyfile::env_view(host).dom().contains(name) <==> host@.dom().contains(name));
    }
}

/// The same text stands for the same thing in the line of a unit, in its variables and in
/// its directory.
pub proof fn lemma_same_text(
    root: &mut SharedRoot,
    a: RunArgs,
    unit: UnitDef,
    host: NameMap<String>,
    given: Vec<(String, u16)>,
    r: SpawnRequest,
    k: Seq<char>,
)
    requires
        call_ensures(SharedRoot::prepare_unit, (root, &a, &unit, &host, &given), r),
        unit.working_dir is Some,
    ensures
        a.extra_args is None && a.command@.len() == 0 && !unit.sub_root && unit.command@
            == unit.working_dir->0@ && !text::contains(unit.command@, "$@"@) ==> r.command@.len() == 3 && r.command@[2]@
            == r.working_dir->0@,
        a.env@.dom().contains(k) && a.env@[k]@ == unit.working_dir->0@ && (unit.singleton || k
            != "PSY_INSTANCE"@) ==> r.env@.dom().contains(k) && r.env@[k]@ == r.working_dir->0@,
        !a.env@.dom().contains(k) && unit.env@.dom().contains(k) && unit.env@[k]@
            == unit.working_dir->0@ && (unit.singleton || k != "PSY_INSTANCE"@)
            ==> r.env@.dom().contains(k) && r.env@[k]@ == r.working_dir->0@,
{
    let own = psyfile::env_view(unit.env).union_prefer_right(psyfile::env_view(a.env));
    let deps = psyfile::deps_view(unit.depends_on@);
    let known = run::known_ports(old(root)@, deps, ports::given(given@));
    let vars = root::visible_vars(psyfile::env_view(host), old(root)@, own).union_prefer_right(
        known,
    );
    assert(text::opt_text(r.working_dir) == Some(
        shell::interpolated(unit.working_dir->0@, vars),
    ));
    if a.extra_args is None && a.command@.len() == 0 && !unit.sub_root && unit.command@
        == unit.working_dir->0@ && !text::contains(unit.command@, "$@"@) {
        let none = text::texts(a.command@);
        assert(none.len() == 0);
        assert(shell::command_with(unit.command@, none) == unit.command@);
        let c = text::texts(r.command@);
        assert(c.len() == r.command@.len());
        assert(c[2] == r.command@[2]@);
    }
    assert(psyfile::env_view(a.env).dom().contains(k) <==> a.env@.dom().contains(k));
    assert(psyfile::env_view(unit.env).dom().contains(k) <==> unit.env@.dom().contains(k));
    if own.dom().contains(k) {
        assert(root::expanded(own, vars).dom().contains(k));
        assert(root::expanded(own, vars)[k] == shell::interpolated(own[k], vars));
        let e = psyfile::env_view(r.env);
        assert(e.dom().contains(k) <==> r.env@.dom().contains(k));
        if unit.singleton || k != "PSY_INSTANCE"@ {
            assert(e[k] == shell::interpolated(own[k], vars));
            assert(e[k] == r.env@[k]@);
        }
    }
}

/// A process of a unit finds the numbers of its ports in its environment too.
pub proof fn lemma_ports_of_a_unit(
    root: &mut SharedRoot,
    a: RunArgs,
    unit: UnitDef,
    host: NameMap<String>,
    given: Vec<(String, u16)>,
    r: SpawnRequest,
    id: &str,
    b: RunArgs,
    plain: SpawnRequest,
    k: Seq<char>,
)
    requires
        call_ensures(SharedRoot::prepare_unit, (root, &a, &unit, &host, &given), r),
        call_ensures(run::prepare_adhoc, (id, &b, &given), Ok::<SpawnRequest, Response>(plain)),
        !a.env@.dom().contains(k),
        !unit.env@.dom().contains(k),
        !b.env@.dom().contains(k),
        unit.singleton || k != "PSY_INSTANCE"@,
    ensures
        r@.env.dom().contains(k) <==> plain@.env.dom().contains(k),
        r@.env.dom().contains(k) ==> r@.env[k] == plain@.env[k],
{
    let own = psyfile::env_view(unit.env).union_prefer_right(psyfile::env_view(a.env));
    assert(psyfile::env_view(a.env).dom().contains(k) <==> a.env@.dom().contains(k));
    assert(psyfile::env_view(unit.env).dom().contains(k) <==> unit.env@.dom().contains(k));
    assert(psyfile::env_view(b.env).dom().contains(k) <==> b.env@.dom().contains(k));
    assert(!own.dom().contains(k));
}

// ---------------------------------------------------------------------------
// Probes and dependencies of a request
// ---------------------------------------------------------------------------

/// The probes of a request with a command of its own are those that it asks for, up to
/// references to its ports; one that cannot be read is refused.
pub proof fn lemma_probes_of_a_command(
    id: &str,
    a: RunArgs,
    given: Vec<(String, u16)>,
    r: Result<SpawnRequest, Response>,
    ready: Result<Option<ProbeConfig>, String>,
    health: Result<Option<ProbeConfig>, String>,
    i: int,
)
    requires
        call_ensures(run::prepare_adhoc, (id, &a, &given), r),
        call_ensures(psyfile::read_opt_probe, ("ready", &a.ready), ready),
        call_ensures(psyfile::read_opt_probe, ("healthcheck", &a.healthcheck), health),
    ensures
        r is Ok <==> ready is Ok && health is Ok,
        r is Err ==> !r->Err_0.ok && r->Err_0.id@ == id@,
        r is Ok && given@.len() == 0 && ready->Ok_0 is Some && ready->Ok_0->0.probe is Exit
            ==> r->Ok_0@.ready == psyfile::probe_view(ready->Ok_0),
        r is Ok ==> (r->Ok_0@.ready is Some <==> ready->Ok_0 is Some),
        r is Ok ==> (r->Ok_0@.healthcheck is Some <==> health->Ok_0 is Some),
        r is Ok && ready->Ok_0 is Some ==> running::same_probe(
            psyfile::probe_view(ready->Ok_0),
            r->Ok_0@.ready,
        ),
        r is Ok && health->Ok_0 is Some ==> running::same_probe(
            psyfile::probe_view(health->Ok_0),
            r->Ok_0@.healthcheck,
        ),
        r is Ok ==> r->Ok_0@.recipe.depends_on.len() == a.depends_on@.len(),
        r is Ok && 0 <= i < a.depends_on@.len() ==> r->Ok_0@.recipe.depends_on[i].name
            == a.depends_on@[i].name@ && r->Ok_0@.recipe.depends_on[i].restart
            == a.depends_on@[i].restart,
{
    if r is Ok {
        let known = ports::port_vars(ports::given(given@), ""@);
        running::lemma_probe_stays(psyfile::probe_view(ready->Ok_0), known);
        running::lemma_probe_stays(psyfile::probe_view(health->Ok_0), known);
    }
}

/// A unit is started behind what it depends on, in the order of a start; where there is no
/// such order it is not started.
pub proof fn lemma_order_of_a_unit(
    root: SharedRoot,
    id: &str,
    a: RunArgs,
    p: Psyfile,
    r: RunStep,
    deps: Vec<String>,
    o: Result<Vec<String>, String>,
)
    requires
        call_ensures(
            SharedRoot::begin_run,
            (&root, id, &Some(a), &Ok::<Option<Psyfile>, String>(Some(p))),
            r,
        ),
        !root@.shutting_down,
        process::valid_name(a.name@),
        p.units@.dom().contains(a.name@),
        call_ensures(UnitDef::dep_names, (&p.units@[a.name@],), deps),
        call_ensures(order::resolve_start_order, (&p, &deps), o),
    ensures
        r is Unit <==> o is Ok,
        r is Unit ==> text::texts(r->Unit_0@) == text::texts(o->Ok_0@),
        deps@.len() == p.units@[a.name@]@.depends_on.len(),
        forall|i: int|
            0 <= i < deps@.len() ==> (#[trigger] deps@[i])@
                == p.units@[a.name@]@.depends_on[i].name,
{
    let u = p.units@[a.name@]@;
    assert(text::texts(deps@) =~= order::dep_list(u));
    assert(text::texts(deps@).len() == deps@.len());
    assert forall|i: int| 0 <= i < deps@.len() implies (#[trigger] deps@[i])@
        == u.depends_on[i].name by {
        assert(text::texts(deps@)[i] == deps@[i]@);
    }
}

// ---------------------------------------------------------------------------
// What is noted of a process
// ---------------------------------------------------------------------------

/// The entry of a process has all that the process is started with; once it is started it
/// runs with its number and the time, and the answer tells its name and its ports.
pub proof fn lemma_started_process(
    root: &mut SharedRoot,
    then: &mut SharedRoot,
    id: &str,
    s: SpawnRequest,
    e: ProcessEntry,
    pid: Option<u32>,
    now: Timestamp,
    attach: bool,
    interactive: bool,
    out: Spawned,
)
    requires
        call_ensures(
            SharedRoot::prepare_spawn,
            (root, id, s),
            Ok::<ProcessEntry, Response>(e),
        ),
        old(then)@ == final(root)@,
        call_ensures(
            SharedRoot::commit_spawn,
            (then, id, e, pid, now, attach, interactive),
            out,
        ),
    ensures
        ({
            let f = final(then)@.table[s@.name];
            &&& final(then)@.table.dom().contains(s@.name)
            &&& f.name == s@.name
            &&& f.command == s@.command
            &&& f.env == s@.env
            &&& f.restart_policy == s@.restart
            &&& f.working_dir == s@.working_dir
            &&& f.ready_config == s@.ready
            &&& f.healthcheck_config == s@.healthcheck
            &&& f.ports == s@.ports
            &&& f.sub_root == s@.sub_root
            &&& f.recipe == s@.recipe
            &&& f.asked == s@.asked
            &&& f.metadata == s@.metadata
            &&& f.state == ProcessState::Running
            &&& f.pid == pid
            &&& f.started_at == Some(now)
            &&& f.stopped_at is None
            &&& f.exit_status is None
            &&& f.signal is None
            &&& f.restarts == 0
            &&& !f.is_main
            &&& !f.stopping
            &&& f.child
            &&& f.stdin_open <==> attach || interactive
            &&& f.interactive <==> interactive && !attach
            &&& f.ready <==> s@.ready is None
            &&& !f.ready_failed
            &&& f.subroot_socket is None
            &&& out.attach == attach
            &&& out.answer.ok
            &&& out.answer.id@ == id@
            &&& out.answer.data is Some
            &&& json::member(json::model(out.answer.data->0), "name"@) == Some(Js::Text(s@.name))
            &&& json::member(json::model(out.answer.data->0), "status"@) == Some(
                Js::Text("running"@),
            )
            &&& json::member(json::model(out.answer.data->0), "ports"@) is Some <==> s@.ports.len()
                > 0
        }),
{
    reveal_strlit("name");
    reveal_strlit("status");
    reveal_strlit("ports");
    assert("name"@.len() == 4 && "status"@.len() == 6 && "ports"@.len() == 5);
    let two = seq![("name"@, Js::Text(s@.name)), ("status"@, Js::Text("running"@))];
    fields::lemma_field(two, 0);
    fields::lemma_field(two, 1);
    let three = Seq::empty().push(("name"@, Js::Text(s@.name))).push(
        ("status"@, Js::Text("running"@)),
    ).push(("ports"@, run::ports_json(s@.ports)));
    fields::lemma_field(three, 0);
    fields::lemma_field(three, 1);
    fields::lemma_field(three, 2);
    if s@.ports.len() == 0 {
        fields::lemma_no_field(two, "ports"@);
    }
}

/// The exit of a process is noted in the table as it is noted of the process alone.
pub proof fn lemma_exit_in_the_table(
    root: &mut SharedRoot,
    e: &mut ProcessEntry,
    name: &str,
    run_id: u32,
    x: ExitInfo,
    now: Timestamp,
    r: ExitStep,
)
    requires
        call_ensures(SharedRoot::on_exit, (root, name, run_id, x, now), r),
        call_ensures(ProcessEntry::mark_exited, (e, x, now), ()),
        old(root)@.table.dom().contains(name@),
        old(root)@.table[name@] == old(e)@,
        old(e)@.current_run_id == run_id,
    ensures
        final(root)@.table.dom() == old(root)@.table.dom(),
        final(root)@.table[name@] == final(e)@,
        final(root)@.counters == old(root)@.counters,
        final(root)@.shutting_down == old(root)@.shutting_down,
        final(root)@.psy_sock == old(root)@.psy_sock,
        old(e)@.stopping && x.signal is Some ==> final(e)@.signal == Some(
            "SIG"@ + text::signed_decimal(x.signal->0 as int),
        ),
        !old(e)@.stopping && x.code is Some ==> final(e)@.signal == old(e)@.signal,
        final(e)@.is_main == old(e)@.is_main,
        final(e)@.child == old(e)@.child,
        final(e)@.stdin_open == old(e)@.stdin_open,
        final(e)@.interactive == old(e)@.interactive,
        final(e)@.sub_root == old(e)@.sub_root,
        final(e)@.ready_config == old(e)@.ready_config,
        final(e)@.healthcheck_config == old(e)@.healthcheck_config,
{
    assert(final(root)@.table.dom() =~= old(root)@.table.dom());
}

} // verus!
