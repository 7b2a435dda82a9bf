//! What runs when a process starts again, and what the root itself runs.
use crate::names::NameMap;
use crate::ports;
use crate::ports::Wanted;
use crate::process::{ProcessEntry, ProcessState};
use crate::protocol::{DependencyArg, Response, RestartArgs, RestartPolicy, RunArgs};
use crate::psyfile;
use crate::psyfile::{Psyfile, UnitDef};
use crate::root;
use crate::root::again;
use crate::root::control;
use crate::root::control::RestartStep;
use crate::root::handle;
use crate::root::run;
use crate::root::run::{Launch, SpawnRequest};
use crate::root::serve;
use crate::root::SharedRoot;
use crate::text;
use crate::time::Timestamp;
use vstd::prelude::*;

verus! {

// ---------------------------------------------------------------------------
// The same again
// ---------------------------------------------------------------------------

/// A process that is not of a unit starts again as it was: the same command, environment,
/// directory, probes, ports and policy. It is not attached to anyone.
pub proof fn lemma_repeat(e: ProcessEntry, name: &str, r: SpawnRequest)
    requires
        call_ensures(again::repeat, (&e, name), r),
    ensures
        r@.name == name@,
        r@.command == e@.command,
        r@.env == e@.env,
        r@.restart == e@.restart_policy,
        r@.working_dir == e@.working_dir,
        r@.ready == e@.ready_config,
        r@.healthcheck == e@.healthcheck_config,
        r@.ports == e@.ports,
        r@.sub_root == e@.sub_root,
        r@.metadata == e@.metadata,
        r@.recipe == e@.recipe,
        r@.asked == e@.asked,
        r@.interactive == e@.recipe.interactive,
        !r@.attach,
{
}

/// A request to restart a process that is not of a unit starts the same again.
pub proof fn lemma_restart_repeats(
    root: &mut SharedRoot,
    id: &str,
    a: RestartArgs,
    psyfile: Result<Option<Psyfile>, String>,
    host: NameMap<String>,
    r: RestartStep,
)
    requires
        call_ensures(SharedRoot::begin_restart, (root, id, &Some(a), &psyfile, &host), r),
        r is One,
        psyfile matches Ok(Some(p)) ==> forall|k: Seq<char>|
            #[trigger] p.units@.dom().contains(k) ==> k != a.name@ && !text::starts_with(
                a.name@,
                k + "."@,
            ),
    ensures
        r->One_1@.command == old(root)@.table[a.name@].command,
        r->One_1@.env == old(root)@.table[a.name@].env,
        r->One_1@.restart == old(root)@.table[a.name@].restart_policy,
        r->One_1@.working_dir == old(root)@.table[a.name@].working_dir,
        r->One_1@.ready == old(root)@.table[a.name@].ready_config,
        r->One_1@.healthcheck == old(root)@.table[a.name@].healthcheck_config,
        r->One_1@.ports == old(root)@.table[a.name@].ports,
{
    if let Ok(Some(p)) = psyfile {
        let u = control::unit_name_of(a.name@);
        let d = control::last_dot(a.name@);
        lemma_last_dot(a.name@);
        reveal_strlit(".");
        if p.units@.dom().contains(u) && d >= 0 {
            assert(a.name@.subrange(0, d + 1) =~= u + "."@);
        }
    }
}

proof fn lemma_last_dot(s: Seq<char>)
    ensures
        -1 <= control::last_dot(s) < s.len(),
        control::last_dot(s) >= 0 ==> s[control::last_dot(s)] == '.',
        forall|i: int| control::last_dot(s) < i < s.len() ==> s[i] != '.',
    decreases s.len(),
{
    if s.len() > 0 && s.last() != '.' {
        lemma_last_dot(s.drop_last());
        assert forall|i: int| control::last_dot(s) < i < s.len() implies s[i] != '.' by {
            if i < s.len() - 1 {
                assert(s.drop_last()[i] == s[i]);
            }
        }
    }
}

/// The unit of an instance is its name without the number behind the last dot, and that of
/// any other process is the process itself.
pub proof fn lemma_unit_of_a_process(name: &str, r: String, unit: Seq<char>, rest: Seq<char>)
    requires
        call_ensures(control::unit_name, (name,), r),
        !rest.contains('.'),
    ensures
        name@ == unit + "."@ + rest ==> r@ == unit,
        !name@.contains('.') ==> r@ == name@,
{
    reveal_strlit(".");
    let s = name@;
    lemma_last_dot(s);
    let d = control::last_dot(s);
    if s == unit + "."@ + rest {
        assert(s[unit.len() as int] == '.');
        if d > unit.len() {
            assert(s[d] == rest[d - unit.len() - 1]);
            assert(rest.contains('.'));
        }
        assert(d == unit.len());
        assert(s.take(d) =~= unit);
    }
    if !s.contains('.') && d >= 0 {
        assert(s.contains(s[d]));
    }
}

/// A request to restart a process of a unit starts what a request to run the unit would
/// start, with what the first request added to it.
pub proof fn lemma_restart_of_a_unit(
    root: &mut SharedRoot,
    other: &mut SharedRoot,
    id: &str,
    a: RestartArgs,
    p: Psyfile,
    host: NameMap<String>,
    r: RestartStep,
    run_args: RunArgs,
    unit: UnitDef,
    given: Vec<(String, u16)>,
    s: SpawnRequest,
)
    requires
        call_ensures(
            SharedRoot::begin_restart,
            (root, id, &Some(a), &Ok::<Option<Psyfile>, String>(Some(p)), &host),
            r,
        ),
        r is One,
        !a.name@.contains('.'),
        p.units@.dom().contains(a.name@),
        p.units@[a.name@]@ == unit@,
        old(root)@.table[a.name@].recipe.instance is None,
        old(other)@ == old(root)@,
        call_ensures(SharedRoot::prepare_unit, (other, &run_args, &unit, &host, &given), s),
        run_args.name@ == a.name@,
        run::asked_for(run_args) == old(root)@.table[a.name@].asked,
        ports::given(given@) == old(root)@.table[a.name@].ports,
    ensures
        r->One_1@.name == s@.name,
        r->One_1@.command == s@.command,
        r->One_1@.env == s@.env,
        r->One_1@.restart == s@.restart,
        r->One_1@.working_dir == s@.working_dir,
        r->One_1@.ready == s@.ready,
        r->One_1@.healthcheck == s@.healthcheck,
        r->One_1@.interactive == s@.interactive,
        r->One_1@.sub_root == s@.sub_root,
        r->One_1@.ports == s@.ports,
{
    lemma_last_dot(a.name@);
    let d = control::last_dot(a.name@);
    if d >= 0 {
        assert(a.name@.contains(a.name@[d]));
    }
    assert(unit@.singleton == unit.singleton);
    assert(p.units@[a.name@]@.singleton);
}

// ---------------------------------------------------------------------------
// Ports of a process that starts again
// ---------------------------------------------------------------------------

/// A process that starts again asks for the ports that it is started from, each with the
/// number that it had first. None of them is kept without a try.
pub proof fn lemma_ports_to_try(
    s: SpawnRequest,
    e: ProcessEntry,
    r: Vec<Wanted>,
    q: Vec<Wanted>,
    i: int,
    port: &str,
    was: Option<u16>,
    had: Option<u16>,
    tries: Vec<u16>,
    others: Vec<u16>,
)
    requires
        call_ensures(SpawnRequest::ports_to_try, (&s,), r),
        call_ensures(ProcessEntry::ports_to_try, (&e,), q),
        0 <= i < s@.recipe.ports.len(),
        e@.recipe.ports == s@.recipe.ports,
        port@ == s@.recipe.ports[i].0,
        call_ensures(ports::find_previous, (&s.ports, port), was),
        call_ensures(ports::find_previous, (&e.ports, port), had),
        call_ensures(ports::candidates, (was, s@.recipe.ports[i].1), tries),
        call_ensures(ports::candidates, (had, s@.recipe.ports[i].1), others),
    ensures
        r@.len() == s@.recipe.ports.len(),
        r@[i].name@ == s@.recipe.ports[i].0,
        r@[i].kept is None,
        r@[i].tries@ == tries@,
        q@.len() == s@.recipe.ports.len(),
        q@[i].name@ == s@.recipe.ports[i].0,
        q@[i].kept is None,
        q@[i].tries@ == others@,
{
    let v = ports::wanted_views(r@);
    assert(v.len() == r@.len());
    assert(v[i] == r@[i]@);
    let w = ports::wanted_views(q@);
    assert(w.len() == q@.len());
    assert(w[i] == q@[i]@);
}

/// A process that gets its own ports again is started as it is; one that gets others is
/// started as its recipe says with those.
pub proof fn lemma_fresh_ports(
    root: SharedRoot,
    s: SpawnRequest,
    host: NameMap<String>,
    given: Vec<(String, u16)>,
    r: SpawnRequest,
    t: Launch,
    u: SpawnRequest,
)
    requires
        call_ensures(SharedRoot::with_ports, (&root, s, &host, &given), r),
        call_ensures(SharedRoot::spawn, (&root, t, &host, &given), u),
        t@.name == s@.name,
        t@.recipe == s@.recipe,
        t@.asked == s@.asked,
        t@.metadata == s@.metadata,
        t@.attach == s@.attach,
    ensures
        ports::given(given@) == s@.ports ==> r@ == s@,
        ports::given(given@) != s@.ports ==> r@ == u@,
        r@.ports == ports::given(given@),
        r@.name == s@.name,
        r@.recipe == s@.recipe,
        r@.asked == s@.asked,
        r@.metadata == s@.metadata,
        r@.attach == s@.attach,
{
}

/// A command that came with a request runs as it came, whatever the ports; only its probes
/// and its environment learn of them.
pub proof fn lemma_command_stays(
    root: SharedRoot,
    t: Launch,
    host: NameMap<String>,
    given: Vec<(String, u16)>,
    r: SpawnRequest,
    k: Seq<char>,
)
    requires
        call_ensures(SharedRoot::spawn, (&root, t, &host, &given), r),
        t@.recipe.line is None,
    ensures
        r@.command == t@.recipe.command,
        r@.name == t@.name,
        r@.restart == t@.recipe.restart,
        r@.working_dir == t@.recipe.working_dir,
        r@.interactive == t@.recipe.interactive,
        r@.attach == t@.attach,
        r@.ports == ports::given(given@),
        r@.ready is Some <==> t@.recipe.ready is Some,
        r@.healthcheck is Some <==> t@.recipe.healthcheck is Some,
        t@.recipe.env.dom().contains(k) ==> r@.env.dom().contains(k) && r@.env[k]
            == t@.recipe.env[k],
{
}

/// A process that restarts by itself on other ports keeps all but what depends on them, and
/// no other process changes.
pub proof fn lemma_ports_are_taken(
    root: &mut SharedRoot,
    name: &str,
    host: NameMap<String>,
    given: Vec<(String, u16)>,
    k: Seq<char>,
)
    requires
        call_ensures(SharedRoot::take_ports, (root, name, &host, &given), ()),
    ensures
        final(root)@.table.dom() == old(root)@.table.dom(),
        k != name@ ==> final(root)@.table[k] == old(root)@.table[k],
        old(root)@.table.dom().contains(name@) ==> {
            let e = old(root)@.table[name@];
            let f = final(root)@.table[name@];
            &&& f.ports == ports::given(given@)
            &&& ports::given(given@) == e.ports ==> f.command == e.command && f.env == e.env
                && f.working_dir == e.working_dir && f.ready_config == e.ready_config
                && f.healthcheck_config == e.healthcheck_config
            &&& f.restart_policy == e.restart_policy
            &&& f.restarts == e.restarts
            &&& f.state == e.state
            &&& f.run_history == e.run_history
            &&& f.current_run_id == e.current_run_id
            &&& f.stdout == e.stdout
            &&& f.stderr == e.stderr
            &&& f.metadata == e.metadata
            &&& f.recipe == e.recipe
            &&& f.asked == e.asked
        },
{
    assert(final(root)@.table.dom() =~= old(root)@.table.dom());
}

/// A process that restarts by itself on other ports runs what it would run if it were
/// started again with them.
pub proof fn lemma_ports_reach_the_command(
    root: &mut SharedRoot,
    name: &str,
    host: NameMap<String>,
    given: Vec<(String, u16)>,
    before: SharedRoot,
    e: ProcessEntry,
    s: SpawnRequest,
    t: SpawnRequest,
)
    requires
        call_ensures(SharedRoot::take_ports, (root, name, &host, &given), ()),
        old(root)@.table.dom().contains(name@),
        before@ == old(root)@,
        e@ == old(root)@.table[name@],
        call_ensures(again::repeat, (&e, name), s),
        call_ensures(SharedRoot::with_ports, (&before, s, &host, &given), t),
    ensures
        final(root)@.table[name@].command == t@.command,
        final(root)@.table[name@].env == t@.env,
        final(root)@.table[name@].working_dir == t@.working_dir,
        final(root)@.table[name@].ready_config == t@.ready,
        final(root)@.table[name@].healthcheck_config == t@.healthcheck,
        final(root)@.table[name@].ports == t@.ports,
{
}

/// What a unit is started from leads to the same process, whether it is a request or a
/// restart that starts it.
pub proof fn lemma_same_recipe(
    root: &mut SharedRoot,
    before: SharedRoot,
    a: RunArgs,
    unit: UnitDef,
    host: NameMap<String>,
    given: Vec<(String, u16)>,
    p: SpawnRequest,
    t: Launch,
    r: SpawnRequest,
)
    requires
        call_ensures(SharedRoot::prepare_unit, (root, &a, &unit, &host, &given), p),
        before@ == old(root)@,
        call_ensures(SharedRoot::spawn, (&before, t, &host, &given), r),
        t@.recipe == p@.recipe,
        t@.name == p@.name,
    ensures
        r@.command == p@.command,
        r@.env == p@.env,
        r@.restart == p@.restart,
        r@.interactive == p@.interactive,
        r@.working_dir == p@.working_dir,
        r@.ready == p@.ready,
        r@.healthcheck == p@.healthcheck,
        r@.ports == p@.ports,
        r@.sub_root == p@.sub_root,
        r@.recipe == p@.recipe,
{
}

/// An instance that is restarted keeps its name and its number, runs the line of its
/// template and has its settings.
pub proof fn lemma_restart_of_an_instance(
    root: &mut SharedRoot,
    id: &str,
    a: RestartArgs,
    p: Psyfile,
    host: NameMap<String>,
    r: RestartStep,
    template: Seq<char>,
    number: Seq<char>,
    n: u32,
)
    requires
        call_ensures(
            SharedRoot::begin_restart,
            (root, id, &Some(a), &Ok::<Option<Psyfile>, String>(Some(p)), &host),
            r,
        ),
        r is One,
        a.name@ == template + "."@ + number,
        !number.contains('.'),
        p.units@.dom().contains(template),
        old(root)@.table[a.name@].recipe.instance == Some(n),
    ensures
        r->One_1@.name == a.name@,
        r->One_1@.env.dom().contains("PSY_INSTANCE"@),
        r->One_1@.env["PSY_INSTANCE"@] == text::decimal(n as nat),
        r->One_1@.sub_root == p.units@[template]@.sub_root,
        r->One_1@.recipe.instance == Some(n),
        r->One_1@.recipe.depends_on == p.units@[template]@.depends_on,
        r->One_1@.recipe.ports == p.units@[template]@.ports,
        r->One_1@.healthcheck is Some <==> p.units@[template]@.healthcheck is Some,
        r->One_1@.ready is Some <==> p.units@[template]@.ready is Some,
        old(root)@.table[a.name@].asked.restart == RestartPolicy::No ==> r->One_1@.restart
            == p.units@[template]@.restart,
        old(root)@.table[a.name@].asked.restart != RestartPolicy::No ==> r->One_1@.restart
            == old(root)@.table[a.name@].asked.restart,
        r->One_1@.interactive <==> old(root)@.table[a.name@].asked.interactive
            || p.units@[template]@.interactive,
{
    reveal_strlit(".");
    let s = a.name@;
    lemma_last_dot(s);
    let d = control::last_dot(s);
    assert(s[template.len() as int] == '.');
    if d > template.len() {
        assert(s[d] == number[d - template.len() - 1]);
        assert(number.contains('.'));
    }
    assert(d == template.len());
    assert(s.take(d) =~= template);
}

// ---------------------------------------------------------------------------
// Requests that cannot be met
// ---------------------------------------------------------------------------

proof fn lemma_first_missing(root: SharedRoot, deps: Seq<DependencyArg>)
    ensures
        run::first_missing(root@, deps) is None <==> forall|i: int|
            0 <= i < deps.len() ==> root@.table.dom().contains((#[trigger] deps[i]).name@),
        run::first_missing(root@, deps) matches Some(d) ==> !root@.table.dom().contains(d)
            && exists|i: int| 0 <= i < deps.len() && (#[trigger] deps[i]).name@ == d,
    decreases deps.len(),
{
    if deps.len() > 0 {
        let rest = deps.skip(1);
        lemma_first_missing(root, rest);
        if root@.table.dom().contains(deps[0].name@) {
            if run::first_missing(root@, rest) is None {
                assert forall|i: int| 0 <= i < deps.len() implies root@.table.dom().contains(
                    (#[trigger] deps[i]).name@,
                ) by {
                    if i > 0 {
                        assert(rest[i - 1] == deps[i]);
                    }
                }
            } else {
                let d = run::first_missing(root@, rest)->0;
                let i = choose|i: int| 0 <= i < rest.len() && (#[trigger] rest[i]).name@ == d;
                assert(deps[i + 1] == rest[i]);
            }
        }
    }
}

/// A request that depends on a process that is not known is refused, and the answer names
/// one; a request whose dependencies are all known is not.
pub proof fn lemma_dependencies_are_known(
    root: SharedRoot,
    id: &str,
    deps: Vec<DependencyArg>,
    r: Option<Response>,
)
    requires
        call_ensures(SharedRoot::check_dependencies, (&root, id, &deps), r),
    ensures
        r is None <==> forall|i: int|
            0 <= i < deps@.len() ==> root@.table.dom().contains((#[trigger] deps@[i]).name@),
        r matches Some(a) ==> !a.ok && a.id@ == id@ && a.error is Some && exists|i: int|
            0 <= i < deps@.len() && !root@.table.dom().contains((#[trigger] deps@[i]).name@)
                && a.error->0@ == "process '"@ + deps@[i].name@ + "' not found"@,
{
    lemma_first_missing(root, deps@);
}

/// A start that fails is answered with the reason.
pub proof fn lemma_failures_are_answered(
    id: &str,
    why: &str,
    answer: Response,
    a: Response,
    b: Response,
    c: Response,
    d: Response,
    e: Response,
    unit: &str,
    f: Option<String>,
)
    requires
        call_ensures(run::spawn_failed, (id, why), a),
        call_ensures(control::restart_failed, (id, why), b),
        call_ensures(run::dependency_failed, (id, unit, &answer), c),
        call_ensures(run::dependency_timed_out, (id, unit), d),
        call_ensures(serve::not_a_request, (why,), e),
        call_ensures(serve::boot_failure, (unit, &answer), f),
    ensures
        !a.ok && a.id@ == id@ && a.error is Some && text::ends_with(a.error->0@, why@),
        !b.ok && b.id@ == id@ && b.error is Some && text::ends_with(b.error->0@, why@),
        !c.ok && c.id@ == id@ && c.error is Some && text::contains(c.error->0@, unit@),
        !d.ok && d.id@ == id@ && d.error is Some && text::contains(d.error->0@, unit@),
        !e.ok && e.error is Some && text::ends_with(e.error->0@, why@),
        f is None <==> answer.ok,
        f is Some ==> text::contains(f->0@, unit@),
        f is Some && answer.error is Some ==> text::ends_with(f->0@, answer.error->0@),
        c.error is Some && answer.error is Some ==> text::ends_with(c.error->0@, answer.error->0@),
{
    lemma_ends("spawn failed: "@, why@);
    lemma_ends("restart spawn failed: "@, why@);
    lemma_ends("invalid JSON: "@, why@);
    let w = match answer.error {
        Some(x) => x@,
        None => "unknown"@,
    };
    let m = c.error->0@;
    lemma_inside("dependency '"@, unit@, "' readiness probe timed out"@);
    assert(m == run::dependency_failure(unit@, answer));
    lemma_named_failure(unit@, answer);
    if f is Some {
        let v = match answer.error {
            Some(x) => x@,
            None => Seq::empty(),
        };
        lemma_inside("psy: failed to start unit '"@, unit@, "': "@ + v);
        lemma_ends("psy: failed to start unit '"@ + unit@ + "': "@, v);
        assert("psy: failed to start unit '"@ + unit@ + ("': "@ + v)
            =~= "psy: failed to start unit '"@ + unit@ + "': "@ + v);
    }
}

proof fn lemma_named_failure(dep: Seq<char>, answer: Response)
    ensures
        text::contains(run::dependency_failure(dep, answer), dep),
        answer.error matches Some(x) ==> text::ends_with(run::dependency_failure(dep, answer), x@),
{
    let m = run::dependency_failure(dep, answer);
    let head = "failed to start dependency '"@;
    assert(m.subrange(head.len() as int, (head.len() + dep.len()) as int) =~= dep);
    assert(text::occurs_at(m, dep, head.len() as int));
    if let Some(x) = answer.error {
        assert(m.subrange(m.len() - x@.len(), m.len() as int) =~= x@);
    }
}

proof fn lemma_ends(head: Seq<char>, s: Seq<char>)
    ensures
        text::ends_with(head + s, s),
{
    let m = head + s;
    assert(m.subrange(m.len() - s.len(), m.len() as int) =~= s);
}

proof fn lemma_inside(head: Seq<char>, s: Seq<char>, tail: Seq<char>)
    ensures
        text::contains(head + s + tail, s),
{
    let m = head + s + tail;
    assert(m.subrange(head.len() as int, (head.len() + s.len()) as int) =~= s);
    assert(text::occurs_at(m, s, head.len() as int));
}

// ---------------------------------------------------------------------------
// The main process
// ---------------------------------------------------------------------------

/// The main process runs the command that is given, else the shell of the user, else the
/// usual one.
pub proof fn lemma_main_command(
    command: Vec<String>,
    shell: String,
    usual: &str,
    a: Vec<String>,
    b: Vec<String>,
    c: Vec<String>,
    given: Option<String>,
)
    requires
        call_ensures(serve::pick_main_command, (Some(command), given, usual), a),
        call_ensures(serve::pick_main_command, (None, Some(shell), usual), b),
        call_ensures(serve::pick_main_command, (None, None, usual), c),
    ensures
        text::texts(a@) == text::texts(command@),
        b@.len() == 1 && b@[0]@ == shell@,
        c@.len() == 1 && c@[0]@ == usual@,
{
    assert(text::texts(b@).len() == b@.len());
    assert(text::texts(c@).len() == c@.len());
    assert(text::texts(b@)[0] == b@[0]@);
    assert(text::texts(c@)[0] == c@[0]@);
}

/// The main process is known under its own name and never restarts; once started it runs
/// with its number, and no other process changes.
pub proof fn lemma_main_process(
    command: Vec<String>,
    e: ProcessEntry,
    root: &mut SharedRoot,
    pid: Option<u32>,
    now: Timestamp,
    k: Seq<char>,
)
    requires
        call_ensures(serve::prepare_main, (command,), e),
        call_ensures(SharedRoot::commit_main, (root, e, pid, now), ()),
    ensures
        e@.is_main,
        e@.command == text::texts(command@),
        e@.restart_policy == RestartPolicy::No,
        e@.env.dom().len() == 0,
        final(root)@.table.dom().contains("main"@),
        final(root)@.table["main"@].state == ProcessState::Running,
        final(root)@.table["main"@].pid == pid,
        final(root)@.table["main"@].is_main,
        final(root)@.table["main"@].command == text::texts(command@),
        final(root)@.table["main"@].started_at == Some(now),
        k != "main"@ ==> (final(root)@.table.dom().contains(k) <==> old(
            root,
        )@.table.dom().contains(k)) && final(root)@.table[k] == old(root)@.table[k],
{
}

// ---------------------------------------------------------------------------
// Shutting down
// ---------------------------------------------------------------------------

/// Whether a process makes a root that shuts down fail.
pub open spec fn has_failed(root: SharedRoot, name: Seq<char>) -> bool {
    root@.table[name].state == ProcessState::Failed && root@.table[name].exit_status != Some(0i32)
}

proof fn lemma_first_failure(root: SharedRoot, names: Seq<Seq<char>>)
    ensures
        ({
            let r = handle::first_failure(root@.table, names);
            &&& r == 0 <==> forall|i: int|
                0 <= i < names.len() ==> !has_failed(root, #[trigger] names[i])
            &&& r != 0 ==> exists|i: int|
                0 <= i < names.len() && has_failed(root, #[trigger] names[i]) && (
                root@.table[names[i]].exit_status == Some(r) || (
                root@.table[names[i]].exit_status is None && r == 1)) && forall|j: int|
                    0 <= j < i ==> !has_failed(root, #[trigger] names[j])
        }),
    decreases names.len(),
{
    if names.len() > 0 {
        let rest = names.skip(1);
        lemma_first_failure(root, rest);
        let r = handle::first_failure(root@.table, names);
        if handle::failure_code(root@.table[names[0]]) != 0 {
            assert(has_failed(root, names[0]));
        } else {
            assert(!has_failed(root, names[0]));
            if r != 0 {
                let i = choose|i: int|
                    0 <= i < rest.len() && has_failed(root, #[trigger] rest[i]) && (
                    root@.table[rest[i]].exit_status == Some(r) || (
                    root@.table[rest[i]].exit_status is None && r == 1)) && forall|j: int|
                        0 <= j < i ==> !has_failed(root, #[trigger] rest[j]);
                assert(names[i + 1] == rest[i]);
                assert forall|j: int| 0 <= j < i + 1 implies !has_failed(
                    root,
                    #[trigger] names[j],
                ) by {
                    if j > 0 {
                        assert(rest[j - 1] == names[j]);
                    }
                }
            } else {
                assert forall|i: int| 0 <= i < names.len() implies !has_failed(
                    root,
                    #[trigger] names[i],
                ) by {
                    if i > 0 {
                        assert(rest[i - 1] == names[i]);
                    }
                }
            }
        }
    }
}

/// A root that shuts down ends with the code of the first process that has failed, and
/// with 0 where none has.
pub proof fn lemma_shutdown_code(root: SharedRoot, r: i32)
    requires
        call_ensures(SharedRoot::shutdown_code, (&root,), r),
    ensures
        r == 0 <==> forall|i: int|
            0 <= i < root.names().len() ==> !has_failed(root, #[trigger] root.names()[i]),
        r != 0 ==> exists|i: int|
            0 <= i < root.names().len() && has_failed(root, #[trigger] root.names()[i]) && (
            root@.table[root.names()[i]].exit_status == Some(r) || (
            root@.table[root.names()[i]].exit_status is None && r == 1)) && forall|j: int|
                0 <= j < i ==> !has_failed(root, #[trigger] root.names()[j]),
{
    lemma_first_failure(root, root.names());
}

/// A line of white space holds no request.
pub proof fn lemma_blank(line: &str, r: bool, i: int)
    requires
        call_ensures(serve::is_blank, (line,), r),
    ensures
        0 <= i < line@.len() && !text::is_space(line@[i]) ==> !r,
        (forall|j: int| 0 <= j < line@.len() ==> text::is_space(#[trigger] line@[j])) ==> r,
{
    lemma_trimmed(line@);
    if 0 <= i < line@.len() && !text::is_space(line@[i]) {
        assert(exists|j: int| 0 <= j < line@.len() && !text::is_space(#[trigger] line@[j]));
    }
}

proof fn lemma_trimmed(s: Seq<char>)
    ensures
        text::trimmed(s).len() == 0 <==> forall|j: int|
            0 <= j < s.len() ==> text::is_space(#[trigger] s[j]),
    decreases s.len(),
{
    if s.len() > 0 {
        if text::is_space(s[0]) {
            let rest = s.skip(1);
            lemma_trimmed(rest);
            if forall|j: int| 0 <= j < s.len() ==> text::is_space(#[trigger] s[j]) {
                assert forall|j: int| 0 <= j < rest.len() implies text::is_space(
                    #[trigger] rest[j],
                ) by {
                    assert(rest[j] == s[j + 1]);
                }
            } else {
                let j = choose|j: int| 0 <= j < s.len() && !text::is_space(#[trigger] s[j]);
                assert(rest[j - 1] == s[j]);
            }
        } else {
            lemma_trim_end(s);
        }
    }
}

proof fn lemma_trim_end(s: Seq<char>)
    requires
        s.len() > 0,
        !text::is_space(s[0]),
    ensures
        text::trim_end(s).len() > 0,
    decreases s.len(),
{
    if text::is_space(s.last()) {
        assert(s.drop_last()[0] == s[0]);
        lemma_trim_end(s.drop_last());
    }
}

/// A restart keeps what was asked for when the process was started, and its metadata and
/// ports; nobody is attached to what is started.
pub proof fn lemma_restart_keeps_what_was_asked(
    root: &mut SharedRoot,
    id: &str,
    a: RestartArgs,
    psyfile: Result<Option<Psyfile>, String>,
    host: NameMap<String>,
    r: RestartStep,
)
    requires
        call_ensures(SharedRoot::begin_restart, (root, id, &Some(a), &psyfile, &host), r),
        r is One,
    ensures
        r->One_1@.name == a.name@,
        r->One_1@.metadata == old(root)@.table[a.name@].metadata,
        r->One_1@.asked == old(root)@.table[a.name@].asked,
        r->One_1@.ports == old(root)@.table[a.name@].ports,
        r->One_1@.recipe.instance == old(root)@.table[a.name@].recipe.instance,
        !r->One_1@.attach,
{
}

} // verus!
