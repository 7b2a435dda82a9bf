//! What a request to run a process starts.
use crate::laws::shell as line;
use crate::names::NameMap;
use crate::platform::System;
use crate::ports;
use crate::process;
use crate::process::{ProcessEntry, SpawnPlan, StdinMode};
use crate::protocol::{Response, RestartPolicy, RunArgs};
use crate::psyfile;
use crate::psyfile::{ProbeKindView, ProbeView, Psyfile, UnitDef};
use crate::root;
use crate::root::run;
use crate::root::run::{RunStep, SpawnRequest, Spawned};
use crate::root::SharedRoot;
use crate::shell;
use crate::text;
use crate::time::Timestamp;
use vstd::prelude::*;

verus! {

/// A request to run a unit starts the shell of the system on the line of the unit,
/// followed by the extra arguments: what follows `--` where nothing else is said, which
/// comes as the command. Splitting the line gives the words of the unit, then exactly
/// those of the request.
pub proof fn lemma_extra_arguments_are_passed_on(
    root: &mut SharedRoot,
    a: RunArgs,
    unit: UnitDef,
    host: NameMap<String>,
    given: Vec<(String, u16)>,
    r: SpawnRequest,
    words: Seq<Seq<char>>,
)
    requires
        call_ensures(SharedRoot::prepare_unit, (root, &a, &unit, &host, &given), r),
        !unit.sub_root,
        line::split_line(unit.command@) == Some(words),
        line::no_reference(unit.command@),
        !text::contains(unit.command@, "$@"@),
        a.extra_args matches Some(e) ==> forall|i: int|
            0 <= i < e@.len() ==> line::no_reference((#[trigger] e@[i])@),
        a.extra_args is None ==> forall|i: int|
            0 <= i < a.command@.len() ==> line::no_reference((#[trigger] a.command@[i])@),
    ensures
        r.command@.len() == 3,
        old(root)@.system == System::Unix ==> r.command@[0]@ == "sh"@ && r.command@[1]@ == "-c"@,
        old(root)@.system == System::Windows ==> r.command@[0]@ == "cmd"@ && r.command@[1]@
            == "/C"@,
        a.extra_args is None ==> line::split_line(r.command@[2]@) == Some(
            words + text::texts(a.command@),
        ),
        a.extra_args matches Some(e) ==> line::split_line(r.command@[2]@) == Some(
            words + text::texts(e@),
        ),
{
    let args = match a.extra_args {
        Some(e) => text::texts(e@),
        None => text::texts(a.command@),
    };
    assert forall|i: int| 0 <= i < args.len() implies line::no_reference(#[trigger] args[i]) by {}
    line::lemma_arguments_behind(unit.command@, args, words);
    line::lemma_line_has_no_reference(unit.command@, args);
    let l = shell::command_with(unit.command@, args);
    let own = psyfile::env_view(unit.env).union_prefer_right(psyfile::env_view(a.env));
    let known = run::known_ports(old(root)@, psyfile::deps_view(unit.depends_on@), ports::given(given@));
    let vars = root::visible_vars(psyfile::env_view(host), old(root)@, own).union_prefer_right(known);
    shell::lemma_interpolate_plain(l, vars);
    let c = text::texts(r.command@);
    assert(c.len() == r.command@.len());
    assert(c =~= shell::shell_words(old(root)@.system, l));
    assert(c[0] == r.command@[0]@ && c[1] == r.command@[1]@ && c[2] == r.command@[2]@);
}

/// A unit that is a root of its own runs its line in a root below this one, under its
/// name.
pub proof fn lemma_sub_root_runs_below(
    root: &mut SharedRoot,
    a: RunArgs,
    unit: UnitDef,
    host: NameMap<String>,
    given: Vec<(String, u16)>,
    r: SpawnRequest,
)
    requires
        call_ensures(SharedRoot::prepare_unit, (root, &a, &unit, &host, &given), r),
    ensures
        r.sub_root == unit.sub_root,
        unit.sub_root ==> {
            &&& r.command@.len() == 10
            &&& r.command@[0]@ == "psy"@
            &&& r.command@[1]@ == "up"@
            &&& r.command@[2]@ == "--parent"@
            &&& r.command@[3]@ == old(root)@.psy_sock
            &&& r.command@[4]@ == "--name"@
            &&& r.command@[5]@ == r.name@
            &&& r.command@[6]@ == "--"@
        },
        !unit.sub_root ==> r.command@.len() == 3,
{
    let c = text::texts(r.command@);
    assert(c.len() == r.command@.len());
    if unit.sub_root {
        assert(c[0] == r.command@[0]@ && c[1] == r.command@[1]@ && c[2] == r.command@[2]@);
        assert(c[3] == r.command@[3]@ && c[4] == r.command@[4]@ && c[5] == r.command@[5]@);
        assert(c[6] == r.command@[6]@);
    }
}

/// A variable of the request wins over one of the unit, and both reach the process, as
/// far as they refer to no other. Beside them there are only the numbers of its ports and
/// the number of an instance.
pub proof fn lemma_unit_environment(
    root: &mut SharedRoot,
    a: RunArgs,
    unit: UnitDef,
    host: NameMap<String>,
    given: Vec<(String, u16)>,
    r: SpawnRequest,
    k: Seq<char>,
)
    requires
        call_ensures(SharedRoot::prepare_unit, (root, &a, &unit, &host, &given), r),
        unit.singleton || k != "PSY_INSTANCE"@,
    ensures
        a.env@.dom().contains(k) ==> r.env@.dom().contains(k),
        a.env@.dom().contains(k) && line::no_reference(a.env@[k]@) ==> r.env@[k]@
            == a.env@[k]@,
        unit.env@.dom().contains(k) ==> r.env@.dom().contains(k),
        !a.env@.dom().contains(k) && unit.env@.dom().contains(k) && line::no_reference(
            unit.env@[k]@,
        ) ==> r.env@[k]@ == unit.env@[k]@,
        !a.env@.dom().contains(k) && !unit.env@.dom().contains(k) && given@.len() == 0
            ==> !r.env@.dom().contains(k),
{
    let own = psyfile::env_view(unit.env).union_prefer_right(psyfile::env_view(a.env));
    let known = run::known_ports(old(root)@, psyfile::deps_view(unit.depends_on@), ports::given(given@));
    let vars = root::visible_vars(psyfile::env_view(host), old(root)@, own).union_prefer_right(known);
    let g = ports::given(given@);
    assert(g.len() == given@.len());
    let e = psyfile::env_view(r.env);
    assert(e.dom().contains(k) <==> r.env@.dom().contains(k));
    if own.dom().contains(k) {
        assert(root::expanded(own, vars).dom().contains(k));
        assert(root::expanded(own, vars)[k] == shell::interpolated(own[k], vars));
        assert(e.dom().contains(k));
        assert(e[k] == shell::interpolated(own[k], vars));
        assert(e[k] == r.env@[k]@);
        if line::no_reference(own[k]) {
            shell::lemma_interpolate_plain(own[k], vars);
        }
        if a.env@.dom().contains(k) {
            assert(own[k] == a.env@[k]@);
        } else {
            assert(own[k] == unit.env@[k]@);
        }
    } else if g.len() == 0 {
        assert(ports::port_env(g).dom() =~= Set::<Seq<char>>::empty());
    }
    assert(psyfile::env_view(unit.env).dom().contains(k) <==> unit.env@.dom().contains(k));
    assert(psyfile::env_view(a.env).dom().contains(k) <==> a.env@.dom().contains(k));
}

/// A unit that is no template runs under its own name, and one that is gets the next
/// number, in its name and in its environment; the number is then used up.
pub proof fn lemma_unit_name(
    root: &mut SharedRoot,
    a: RunArgs,
    unit: UnitDef,
    host: NameMap<String>,
    given: Vec<(String, u16)>,
    r: SpawnRequest,
    n: u32,
)
    requires
        call_ensures(SharedRoot::prepare_unit, (root, &a, &unit, &host, &given), r),
        old(root)@.counters.dom().contains(a.name@) ==> old(root)@.counters[a.name@] + 1 == n,
        !old(root)@.counters.dom().contains(a.name@) ==> n == 1,
    ensures
        unit.singleton ==> r.name@ == a.name@ && final(root)@ == old(root)@,
        !unit.singleton ==> {
            &&& r.name@ == a.name@ + "."@ + text::decimal(n as nat)
            &&& r.env@.dom().contains("PSY_INSTANCE"@)
            &&& r.env@["PSY_INSTANCE"@]@ == text::decimal(n as nat)
            &&& final(root)@.counters.dom().contains(a.name@)
            &&& final(root)@.counters[a.name@] == n
            &&& final(root)@.table == old(root)@.table
        },
{
    let e = psyfile::env_view(r.env);
    if !unit.singleton {
        assert(run::next_instance(old(root)@, a.name@) == n);
        assert(e.dom().contains("PSY_INSTANCE"@));
        assert(e["PSY_INSTANCE"@] == text::decimal(n as nat));
        assert(r.env@.dom().contains("PSY_INSTANCE"@));
        assert(r.env@["PSY_INSTANCE"@]@ == e["PSY_INSTANCE"@]);
    }
}

/// The policy of a request wins over that of the unit where it asks for one; a process is
/// interactive where either says so; the ports, the tags and the probes, up to references
/// to ports, are those that it was given.
pub proof fn lemma_unit_settings(
    root: &mut SharedRoot,
    a: RunArgs,
    unit: UnitDef,
    host: NameMap<String>,
    given: Vec<(String, u16)>,
    r: SpawnRequest,
)
    requires
        call_ensures(SharedRoot::prepare_unit, (root, &a, &unit, &host, &given), r),
    ensures
        a.restart == RestartPolicy::No ==> r.restart == unit.restart,
        a.restart != RestartPolicy::No ==> r.restart == a.restart,
        r.interactive <==> a.interactive || unit.interactive,
        r.attach == a.attach,
        r.ports@.len() == given@.len(),
        forall|i: int|
            0 <= i < given@.len() ==> (#[trigger] r.ports@[i]).0@ == given@[i].0@ && r.ports@[i].1
                == given@[i].1,
        unit.working_dir is None <==> r.working_dir is None,
        unit.working_dir is Some && line::no_reference(unit.working_dir->0@) ==> r.working_dir->0@
            == unit.working_dir->0@,
        psyfile::env_view(r.metadata) == psyfile::env_view(a.metadata),
        same_probe(unit@.ready, r@.ready),
        same_probe(unit@.healthcheck, r@.healthcheck),
{
    let own = psyfile::env_view(unit.env).union_prefer_right(psyfile::env_view(a.env));
    let known = run::known_ports(old(root)@, psyfile::deps_view(unit.depends_on@), ports::given(given@));
    let vars = root::visible_vars(psyfile::env_view(host), old(root)@, own).union_prefer_right(known);
    if unit.working_dir is Some && line::no_reference(unit.working_dir->0@) {
        shell::lemma_interpolate_plain(unit.working_dir->0@, vars);
    }
    assert(ports::given(r.ports@).len() == r.ports@.len());
    assert(ports::given(given@).len() == given@.len());
    assert forall|i: int| 0 <= i < given@.len() implies (#[trigger] r.ports@[i]).0@ == given@[i].0@
        && r.ports@[i].1 == given@[i].1 by {
        assert(ports::given(r.ports@)[i] == ports::given(given@)[i]);
    }
    lemma_probe_stays(unit@.ready, known);
    lemma_probe_stays(unit@.healthcheck, known);
}

/// Whether a probe is carried out as it was written down: the same kind and the same
/// times, and the same address where it refers to no port.
pub open spec fn same_probe(written: Option<ProbeView>, used: Option<ProbeView>) -> bool {
    &&& written is Some <==> used is Some
    &&& written is Some ==> {
        let w = written->0;
        let u = used->0;
        &&& u.interval == w.interval
        &&& u.timeout == w.timeout
        &&& u.retries == w.retries
        &&& match w.probe {
            ProbeKindView::Tcp(a) => u.probe matches ProbeKindView::Tcp(b) && (!text::contains(
                a,
                "${port."@,
            ) ==> b == a),
            ProbeKindView::Http(a) => u.probe matches ProbeKindView::Http(b) && (!text::contains(
                a,
                "${port."@,
            ) ==> b == a),
            ProbeKindView::Exec(a) => u.probe matches ProbeKindView::Exec(b) && (!text::contains(
                a,
                "${port."@,
            ) ==> b == a),
            ProbeKindView::Exit(c) => u.probe == ProbeKindView::Exit(c),
        }
    }
}

/// A probe that gets its ports is carried out as it was written down.
pub proof fn lemma_probe_stays(p: Option<ProbeView>, known: Map<Seq<char>, Seq<char>>)
    ensures
        same_probe(p, ports::opt_probe_in(p, known)),
{
    if let Some(c) = p {
        match c.probe {
            ProbeKindView::Tcp(a) => {
                if !text::contains(a, "${port."@) {
                    ports::lemma_put_in_plain(a, known);
                }
            },
            ProbeKindView::Http(a) => {
                if !text::contains(a, "${port."@) {
                    ports::lemma_put_in_plain(a, known);
                }
            },
            ProbeKindView::Exec(a) => {
                if !text::contains(a, "${port."@) {
                    ports::lemma_put_in_plain(a, known);
                }
            },
            ProbeKindView::Exit(_) => {},
        }
    }
}

/// A process started for a unit has a health check if and only if the unit has one, and
/// it is that one which is carried out; likewise the readiness probe, unless it waits for
/// the exit. The process runs what was worked out for it.
pub proof fn lemma_unit_is_probed(
    root: &mut SharedRoot,
    next: &mut SharedRoot,
    then: &mut SharedRoot,
    id: &str,
    a: RunArgs,
    unit: UnitDef,
    host: NameMap<String>,
    given: Vec<(String, u16)>,
    s: SpawnRequest,
    e: ProcessEntry,
    pid: Option<u32>,
    now: Timestamp,
    attach: bool,
    interactive: bool,
    out: Spawned,
)
    requires
        call_ensures(SharedRoot::prepare_unit, (root, &a, &unit, &host, &given), s),
        old(next)@ == final(root)@,
        call_ensures(
            SharedRoot::prepare_spawn,
            (next, id, s),
            Ok::<ProcessEntry, Response>(e),
        ),
        old(then)@ == final(next)@,
        call_ensures(
            SharedRoot::commit_spawn,
            (then, id, e, pid, now, attach, interactive),
            out,
        ),
    ensures
        same_probe(unit@.healthcheck, psyfile::probe_view(out.healthcheck)),
        same_probe(unit@.healthcheck, final(then)@.table[s@.name].healthcheck_config),
        same_probe(unit@.ready, final(then)@.table[s@.name].ready_config),
        unit@.ready is None ==> out.ready_probe is None,
        unit@.ready matches Some(p) ==> if p.probe is Exit {
            out.ready_probe is None
        } else {
            same_probe(unit@.ready, psyfile::probe_view(out.ready_probe))
        },
        root::runs(final(then)@, s@.name),
        final(then)@.table[s@.name].command == s@.command,
        final(then)@.table[s@.name].env == s@.env,
        final(then)@.table[s@.name].restart_policy == s@.restart,
        final(then)@.table[s@.name].working_dir == s@.working_dir,
        final(then)@.table[s@.name].ports == s@.ports,
        final(then)@.table[s@.name].metadata == s@.metadata,
        final(then)@.table[s@.name].restarts == 0,
        interactive && !attach ==> final(then)@.table[s@.name].interactive,
        attach || interactive ==> final(then)@.table[s@.name].stdin_open,
        !attach && !interactive ==> !final(then)@.table[s@.name].stdin_open,
        forall|k: Seq<char>|
            k != s@.name ==> #[trigger] final(then)@.table[k] == old(root)@.table[k],
{
    let known = run::known_ports(old(root)@, psyfile::deps_view(unit.depends_on@), ports::given(given@));
    lemma_probe_stays(unit@.ready, known);
    lemma_probe_stays(unit@.healthcheck, known);
}

/// A process with a command of its own runs that command as it is, with the variables,
/// the directory, the policy and the tags of the request, beside the numbers of its ports.
pub proof fn lemma_command_runs_as_asked(
    id: &str,
    a: RunArgs,
    given: Vec<(String, u16)>,
    r: SpawnRequest,
)
    requires
        call_ensures(
            run::prepare_adhoc,
            (id, &a, &given),
            Ok::<SpawnRequest, Response>(r),
        ),
    ensures
        r.name@ == a.name@,
        text::texts(r.command@) == text::texts(a.command@),
        r.restart == a.restart,
        r.attach == a.attach,
        r.interactive == a.interactive,
        text::opt_text(r.working_dir) == text::opt_text(a.cwd),
        !r.sub_root,
        ports::given(r.ports@) == ports::given(given@),
        psyfile::env_view(r.metadata) == psyfile::env_view(a.metadata),
        forall|k: Seq<char>| #[trigger]
            a.env@.dom().contains(k) ==> r@.env.dom().contains(k) && r@.env[k] == a.env@[k]@,
        given@.len() == 0 ==> r@.env == psyfile::env_view(a.env),
        a.ready is Some <==> r.ready is Some,
        a.healthcheck is Some <==> r.healthcheck is Some,
{
    let g = ports::given(given@);
    assert(g.len() == given@.len());
    assert forall|k: Seq<char>| #[trigger] a.env@.dom().contains(k) implies r@.env.dom().contains(k)
        && r@.env[k] == a.env@[k]@ by {
        assert(psyfile::env_view(a.env).dom().contains(k));
    }
    if g.len() == 0 {
        assert(r@.env =~= psyfile::env_view(a.env));
    }
}

/// Each port that a process is given stands in its environment, under its name in
/// capitals, unless a variable of the request has that name or another port has it too.
pub proof fn lemma_ports_in_environment(
    id: &str,
    a: RunArgs,
    given: Vec<(String, u16)>,
    r: SpawnRequest,
    i: int,
)
    requires
        call_ensures(
            run::prepare_adhoc,
            (id, &a, &given),
            Ok::<SpawnRequest, Response>(r),
        ),
        0 <= i < given@.len(),
        forall|j: int|
            0 <= j < given@.len() && j != i ==> ports::capitals((#[trigger] given@[j]).0@)
                != ports::capitals(given@[i].0@),
        !a.env@.dom().contains("PSY_PORT_"@ + ports::capitals(given@[i].0@)),
    ensures
        ({
            let k = "PSY_PORT_"@ + ports::capitals(given@[i].0@);
            r@.env.dom().contains(k) && r@.env[k] == text::decimal(given@[i].1 as nat)
        }),
{
    let g = ports::given(given@);
    let k = "PSY_PORT_"@ + ports::capitals(given@[i].0@);
    assert(!psyfile::env_view(a.env).dom().contains(k));
    assert forall|j: int| 0 <= j < g.len() && j != i implies ports::capitals((#[trigger] g[j]).0)
        != ports::capitals(g[i].0) by {
        assert(g[j].0 == given@[j].0@);
        assert(g[i].0 == given@[i].0@);
    }
    lemma_port_variable(g, i);
}

proof fn lemma_port_variable(g: Seq<(Seq<char>, u16)>, i: int)
    requires
        0 <= i < g.len(),
        forall|j: int|
            0 <= j < g.len() && j != i ==> ports::capitals((#[trigger] g[j]).0)
                != ports::capitals(g[i].0),
    ensures
        ports::port_env(g).dom().contains("PSY_PORT_"@ + ports::capitals(g[i].0)),
        ports::port_env(g)["PSY_PORT_"@ + ports::capitals(g[i].0)] == text::decimal(
            g[i].1 as nat,
        ),
    decreases g.len(),
{
    let head = "PSY_PORT_"@;
    if i < g.len() - 1 {
        let rest = g.drop_last();
        assert forall|j: int| 0 <= j < rest.len() && j != i implies ports::capitals(
            (#[trigger] rest[j]).0,
        ) != ports::capitals(rest[i].0) by {
            assert(rest[j] == g[j] && rest[i] == g[i]);
        }
        lemma_port_variable(rest, i);
        let a = head + ports::capitals(g[i].0);
        let b = head + ports::capitals(g.last().0);
        if a == b {
            assert(a.skip(head.len() as int) =~= ports::capitals(g[i].0));
            assert(b.skip(head.len() as int) =~= ports::capitals(g.last().0));
            assert(g[g.len() - 1] == g.last());
        }
    }
}

/// What is handed to the operating system is the command of the process, word by word,
/// with where its root is and its own variables, which win.
pub proof fn lemma_child_is_started_as_asked(
    e: ProcessEntry,
    sock: &str,
    pid: u32,
    attach: bool,
    interactive: bool,
    r: Result<SpawnPlan, String>,
)
    requires
        call_ensures(ProcessEntry::spawn_plan, (&e, sock, pid, attach, interactive), r),
    ensures
        r is Err <==> e@.command.len() == 0,
        r matches Ok(p) ==> {
            &&& seq![p.program@] + text::texts(p.args@) == e@.command
            &&& text::opt_text(p.working_dir) == e@.working_dir
            &&& process::pairs_view(p.env@).dom().contains("PSY_SOCK"@)
            &&& process::pairs_view(p.env@).dom().contains("PSY_ROOT_PID"@)
            &&& !e@.env.dom().contains("PSY_SOCK"@) ==> process::pairs_view(p.env@)["PSY_SOCK"@]
                == sock@
            &&& !e@.env.dom().contains("PSY_ROOT_PID"@) ==> process::pairs_view(
                p.env@,
            )["PSY_ROOT_PID"@] == text::decimal(pid as nat)
            &&& forall|k: Seq<char>| #[trigger]
                e@.env.dom().contains(k) ==> process::pairs_view(p.env@)[k] == e@.env[k]
            &&& p.capture <==> !e@.is_main
            &&& e@.is_main ==> p.stdin == StdinMode::Inherit
            &&& !e@.is_main && (attach || interactive) ==> p.stdin == StdinMode::Piped
            &&& !e@.is_main && !attach && !interactive ==> p.stdin == StdinMode::Null
        },
{
    reveal_strlit("PSY_SOCK");
    reveal_strlit("PSY_ROOT_PID");
    assert("PSY_SOCK"@.len() != "PSY_ROOT_PID"@.len());
    if let Ok(p) = r {
        assert(seq![p.program@] + text::texts(p.args@) =~= e@.command);
    }
}

/// A process that runs is not started a second time, and one that has ended makes room and
/// hands its runs on, its last one with them.
pub proof fn lemma_one_process_of_a_name(
    root: &mut SharedRoot,
    id: &str,
    s: SpawnRequest,
    r: Result<ProcessEntry, Response>,
)
    requires
        call_ensures(SharedRoot::prepare_spawn, (root, id, s), r),
    ensures
        r is Err <==> root::runs(old(root)@, s.name@),
        r matches Err(a) ==> !a.ok && a.id@ == id@ && final(root)@ == old(root)@ && a.error is Some
            && text::contains(a.error->0@, s.name@),
        r matches Ok(e) ==> {
            &&& e@.name == s.name@
            &&& !final(root)@.table.dom().contains(s.name@)
            &&& forall|k: Seq<char>|
                k != s.name@ ==> (#[trigger] final(root)@.table.dom().contains(k) <==> old(
                    root,
                )@.table.dom().contains(k))
            &&& !old(root)@.table.dom().contains(s.name@) ==> e@.run_history.len() == 0
                && e@.current_run_id == 1
            &&& old(root)@.table.dom().contains(s.name@) && old(
                root,
            )@.table[s.name@].current_run_id < u32::MAX ==> {
                let was = old(root)@.table[s.name@];
                &&& e@.current_run_id == was.current_run_id + 1
                &&& e@.run_history.len() == was.run_history.len() + 1
                &&& e@.run_history.take(was.run_history.len() as int) == was.run_history
                &&& e@.run_history.last().run_id == was.current_run_id
                &&& e@.run_history.last().stdout == was.stdout
                &&& e@.run_history.last().stderr == was.stderr
                &&& e@.run_history.last().exit_status == was.exit_status
                &&& e@.run_history.last().state == was.state
                &&& e@.run_history.last().started_at == was.started_at
                &&& e@.run_history.last().stopped_at == was.stopped_at
            }
            &&& e@.stdout.lines.len() == 0
            &&& e@.stderr.lines.len() == 0
            &&& e@.restarts == 0
        },
{
    if let Err(a) = r {
        let head = "process '"@;
        let m = a.error->0@;
        assert(m.subrange(head.len() as int, (head.len() + s.name@.len()) as int) =~= s.name@);
        assert(text::occurs_at(m, s.name@, head.len() as int));
    }
    if let Ok(e) = r {
        if old(root)@.table.dom().contains(s.name@) {
            let was = old(root)@.table[s.name@];
            assert(e@.run_history.take(was.run_history.len() as int) =~= was.run_history);
        }
    }
}

/// Whether a Psyfile that could be loaded has a unit.
pub open spec fn has_unit(psyfile: Result<Option<Psyfile>, String>, name: Seq<char>) -> bool {
    &&& psyfile is Ok
    &&& psyfile->Ok_0 is Some
    &&& psyfile->Ok_0->0.units@.dom().contains(name)
}

/// What a request to run a process leads to: a unit of the Psyfile goes before a command,
/// a command runs where there is no such unit, and without either, while the root shuts
/// down, or under a name that is not valid, nothing runs.
pub proof fn lemma_what_is_run(
    root: SharedRoot,
    id: &str,
    a: RunArgs,
    psyfile: Result<Option<Psyfile>, String>,
    r: RunStep,
)
    requires
        call_ensures(SharedRoot::begin_run, (&root, id, &Some(a), &psyfile), r),
    ensures
        root@.shutting_down ==> r is Answer,
        !process::valid_name(a.name@) ==> r is Answer,
        r is Unit ==> has_unit(psyfile, a.name@),
        r is Adhoc ==> a.command@.len() > 0 && !has_unit(psyfile, a.name@),
        !root@.shutting_down && process::valid_name(a.name@) && a.command@.len() > 0 && !has_unit(psyfile, a.name@) ==> r is Adhoc,
        !root@.shutting_down && process::valid_name(a.name@) && a.command@.len() == 0 && !has_unit(psyfile, a.name@) ==> r is Answer,
        r matches RunStep::Answer(x) ==> !x.ok && x.id@ == id@ && x.error is Some,
{
}

} // verus!
