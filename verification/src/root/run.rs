//! Running processes: what a request to run one leads to.
use crate::api;
use crate::json;
use crate::json::{Fields, Js, Json};
use crate::names::NameMap;
use crate::order;
use crate::platform::System;
use crate::ports;
use crate::ports::Wanted;
use crate::process;
use crate::process::{EntryView, ProcessEntry, ProcessState};
use crate::protocol::{DependencyArg, PortDefArg, Response, RestartPolicy, RunArgs};
use crate::psyfile;
use crate::psyfile::{
    Dependency, DependencyView, ProbeConfig, ProbeKind, ProbeView, Psyfile, UnitDef, UnitView,
};
use crate::recipe;
use crate::recipe::{Asked, AskedView, Recipe, RecipeView};
use crate::ring_buffer::LineView;
use crate::root;
use crate::root::life::ExitInfo;
use crate::root::{RootView, SharedRoot};
use crate::shell;
use crate::text;
use crate::time::{Duration, Timestamp};
use vstd::prelude::*;

verus! {

// ---------------------------------------------------------------------------
// What to do
// ---------------------------------------------------------------------------

/// The unit that a name stands for, where a Psyfile could be loaded.
pub open spec fn unit_named(psyfile: Result<Option<Psyfile>, String>, name: Seq<char>) -> Option<
    UnitView,
> {
    match psyfile {
        Ok(Some(p)) => if p.units@.dom().contains(name) {
            Some(p.units@[name]@)
        } else {
            None
        },
        _ => None,
    }
}

/// The units of a Psyfile that could be loaded.
pub open spec fn loaded_units(psyfile: Result<Option<Psyfile>, String>) -> Map<
    Seq<char>,
    UnitView,
> {
    match psyfile {
        Ok(Some(p)) => psyfile::units_view(p.units@),
        _ => Map::empty(),
    }
}

/// What a request to run a process leads to: a refusal, a unit with the
/// dependencies that come first, or a command of its own.
pub ghost enum RunDecision {
    Refuse(Seq<char>),
    Unit(Seq<Seq<char>>),
    Adhoc,
}

/// What a request to run a process leads to. A Psyfile that cannot be loaded
/// only matters where the request brings no command.
pub open spec fn run_decision(
    shutting_down: bool,
    args: Option<RunArgs>,
    psyfile: Result<Option<Psyfile>, String>,
) -> RunDecision {
    if shutting_down {
        RunDecision::Refuse("server is shutting down"@)
    } else {
        match args {
            None => RunDecision::Refuse("invalid or missing run args"@),
            Some(a) => if !process::valid_name(a.name@) {
                RunDecision::Refuse("invalid name: must match [a-zA-Z0-9][a-zA-Z0-9_-]{0,62}"@)
            } else if psyfile is Err && a.command@.len() == 0 {
                RunDecision::Refuse("Psyfile error: "@ + psyfile->Err_0@)
            } else {
                match unit_named(psyfile, a.name@) {
                    Some(u) => match order::visit_all(
                        loaded_units(psyfile),
                        order::dep_list(u),
                        Seq::empty(),
                        Seq::empty(),
                    ) {
                        Ok(o) => RunDecision::Unit(o),
                        Err(e) => RunDecision::Refuse("dependency error: "@ + e),
                    },
                    None => if a.command@.len() == 0 {
                        RunDecision::Refuse(
                            "no command provided for ad-hoc process '"@ + a.name@ + "'"@,
                        )
                    } else {
                        RunDecision::Adhoc
                    },
                }
            },
        }
    }
}

/// The first step of a request to run a process.
#[derive(Debug)]
pub enum RunStep {
    Answer(Response),
    /// Start these units first, each where it is not running yet.
    Unit(Vec<String>),
    Adhoc,
}

impl SharedRoot {
    /// Decides what a request to run a process leads to.
    pub fn begin_run(
        &self,
        id: &str,
        args: &Option<RunArgs>,
        psyfile: &Result<Option<Psyfile>, String>,
    ) -> (r: RunStep)
        ensures
            match r {
                RunStep::Answer(a) => run_decision(
                    self@.shutting_down,
                    *args,
                    *psyfile,
                ) matches RunDecision::Refuse(m) && root::is_error(a, id@, m),
                RunStep::Unit(o) => run_decision(self@.shutting_down, *args, *psyfile)
                    == RunDecision::Unit(text::texts(o@)),
                RunStep::Adhoc => run_decision(self@.shutting_down, *args, *psyfile)
                    == RunDecision::Adhoc,
            },
    {
        if self.is_shutting_down() {
            return RunStep::Answer(Response::err(id, "server is shutting down"));
        }
        let a = match args {
            Some(a) => a,
            None => {
                return RunStep::Answer(Response::err(id, "invalid or missing run args"));
            },
        };
        if !process::validate_name(a.name.as_str()) {
            return RunStep::Answer(
                Response::err(id, "invalid name: must match [a-zA-Z0-9][a-zA-Z0-9_-]{0,62}"),
            );
        }
        if let Err(e) = psyfile {
            if a.command.len() == 0 {
                let m = text::concat2("Psyfile error: ", e.as_str());
                return RunStep::Answer(Response::err(id, m.as_str()));
            }
        }
        if let Ok(Some(p)) = psyfile {
            if let Some(unit) = p.units.get(a.name.as_str()) {
                let deps = unit.dep_names();
                return match order::resolve_start_order(p, &deps) {
                    Ok(o) => RunStep::Unit(o),
                    Err(e) => {
                        let m = text::concat2("dependency error: ", e.as_str());
                        RunStep::Answer(Response::err(id, m.as_str()))
                    },
                };
            }
        }
        if a.command.len() == 0 {
            let m = text::concat3(
                "no command provided for ad-hoc process '",
                a.name.as_str(),
                "'",
            );
            return RunStep::Answer(Response::err(id, m.as_str()));
        }
        RunStep::Adhoc
    }
}

// ---------------------------------------------------------------------------
// Dependencies
// ---------------------------------------------------------------------------

/// Whether a name is that of an instance of a template.
pub open spec fn is_instance(template: Seq<char>, name: Seq<char>) -> bool {
    text::starts_with(name, template + "."@)
}

/// Whether a dependency is running: the unit itself or, for a template, any of
/// its instances.
pub open spec fn dep_runs(
    r: RootView,
    units: Map<Seq<char>, UnitView>,
    dep: Seq<char>,
) -> bool {
    &&& units.dom().contains(dep)
    &&& if units[dep].singleton {
        root::runs(r, dep)
    } else {
        exists|k: Seq<char>| #[trigger] root::runs(r, k) && is_instance(dep, k)
    }
}

impl SharedRoot {
    /// Tests whether a dependency is running.
    pub fn dependency_running(&self, psyfile: &Psyfile, dep: &str) -> (r: bool)
        ensures
            r == dep_runs(self@, psyfile::units_view(psyfile.units@), dep@),
    {
        match psyfile.units.get(dep) {
            None => false,
            Some(u) => {
                if u.singleton {
                    return self.is_running(dep);
                }
                let prefix = text::concat2(dep, ".");
                let n = self.process_count();
                let mut i: usize = 0;
                while i < n
                    invariant
                        i <= n,
                        n == self.names().len(),
                        prefix@ == dep@ + "."@,
                        psyfile.units@.dom().contains(dep@),
                        psyfile.units@[dep@] == *u,
                        !u.singleton,
                        forall|j: int|
                            0 <= j < i ==> !(root::runs(self@, #[trigger] self.names()[j])
                                && is_instance(dep@, self.names()[j])),
                    decreases n - i,
                {
                    let e = self.nth(i);
                    let name = self.nth_name(i);
                    if e.state == ProcessState::Running && text::begins(
                        name.as_str(),
                        prefix.as_str(),
                    ) {
                        proof {
                            assert(root::runs(self@, self.names()[i as int]));
                        }
                        return true;
                    }
                    i += 1;
                }
                proof {
                    self.lemma_names();
                    assert forall|k: Seq<char>| #[trigger] root::runs(self@, k) implies
                        !is_instance(dep@, k) by {
                        assert(self.names().contains(k));
                        let j = self.names().index_of(k);
                        assert(self.names()[j] == k);
                    }
                }
                false
            },
        }
    }

    /// How long to wait for a process to become ready, where it has to be waited
    /// for.
    pub fn ready_wait(&self, name: &str) -> (r: Option<Duration>)
        ensures
            r == wait_for_ready(self@, name@),
    {
        match self.entry(name) {
            Some(e) => match &e.ready_config {
                Some(c) => if e.ready {
                    None
                } else {
                    Some(c.timeout)
                },
                None => None,
            },
            None => None,
        }
    }
}

/// How long a dependent waits for a process to become ready.
pub open spec fn wait_for_ready(r: RootView, name: Seq<char>) -> Option<Duration> {
    if r.table.dom().contains(name) && !r.table[name].ready {
        match r.table[name].ready_config {
            Some(c) => Some(c.timeout),
            None => None,
        }
    } else {
        None
    }
}

/// The message where a dependency could not be started.
pub open spec fn dependency_failure(dep: Seq<char>, answer: Response) -> Seq<char> {
    "failed to start dependency '"@ + dep + "': "@ + match answer.error {
        Some(e) => e@,
        None => "unknown"@,
    }
}

/// The answer where a dependency could not be started.
pub fn dependency_failed(id: &str, dep: &str, answer: &Response) -> (r: Response)
    ensures
        root::is_error(r, id@, dependency_failure(dep@, *answer)),
{
    let mut m = text::concat3("failed to start dependency '", dep, "': ");
    match &answer.error {
        Some(e) => text::push_text(&mut m, e.as_str()),
        None => text::push_text(&mut m, "unknown"),
    }
    Response::err(id, m.as_str())
}

/// The answer where a dependency did not become ready in time.
pub fn dependency_timed_out(id: &str, dep: &str) -> (r: Response)
    ensures
        root::is_error(r, id@, "dependency '"@ + dep@ + "' readiness probe timed out"@),
{
    let m = text::concat3("dependency '", dep, "' readiness probe timed out");
    Response::err(id, m.as_str())
}

// ---------------------------------------------------------------------------
// What to start
// ---------------------------------------------------------------------------

/// A process to start.
#[derive(Debug)]
pub struct SpawnRequest {
    pub name: String,
    pub command: Vec<String>,
    pub env: NameMap<String>,
    pub restart: RestartPolicy,
    pub attach: bool,
    pub interactive: bool,
    pub working_dir: Option<String>,
    pub ready: Option<ProbeConfig>,
    pub healthcheck: Option<ProbeConfig>,
    /// The ports that it is given.
    pub ports: Vec<(String, u16)>,
    /// Whether it is a root of its own.
    pub sub_root: bool,
    /// What it is started from.
    pub recipe: Recipe,
    /// What the request for it said.
    pub asked: Asked,
    /// The tags that the caller keeps on it.
    pub metadata: NameMap<String>,
}

/// What a process to start is.
#[verifier::ext_equal]
pub ghost struct SpawnView {
    pub name: Seq<char>,
    pub command: Seq<Seq<char>>,
    pub env: Map<Seq<char>, Seq<char>>,
    pub restart: RestartPolicy,
    pub attach: bool,
    pub interactive: bool,
    pub working_dir: Option<Seq<char>>,
    pub ready: Option<ProbeView>,
    pub healthcheck: Option<ProbeView>,
    pub ports: Seq<(Seq<char>, u16)>,
    pub sub_root: bool,
    pub recipe: RecipeView,
    pub asked: AskedView,
    pub metadata: Map<Seq<char>, Seq<char>>,
}

impl View for SpawnRequest {
    type V = SpawnView;

    open spec fn view(&self) -> SpawnView {
        SpawnView {
            name: self.name@,
            command: text::texts(self.command@),
            env: psyfile::env_view(self.env),
            restart: self.restart,
            attach: self.attach,
            interactive: self.interactive,
            working_dir: text::opt_text(self.working_dir),
            ready: psyfile::probe_view(self.ready),
            healthcheck: psyfile::probe_view(self.healthcheck),
            ports: ports::given(self.ports@),
            sub_root: self.sub_root,
            recipe: self.recipe@,
            asked: self.asked@,
            metadata: psyfile::env_view(self.metadata),
        }
    }
}

/// A start of a process, before it is known which ports it is given.
#[derive(Debug)]
pub struct Launch {
    pub name: String,
    pub recipe: Recipe,
    pub asked: Asked,
    pub metadata: NameMap<String>,
    pub attach: bool,
}

/// What a start of a process is.
#[verifier::ext_equal]
pub ghost struct LaunchView {
    pub name: Seq<char>,
    pub recipe: RecipeView,
    pub asked: AskedView,
    pub metadata: Map<Seq<char>, Seq<char>>,
    pub attach: bool,
}

impl View for Launch {
    type V = LaunchView;

    open spec fn view(&self) -> LaunchView {
        LaunchView {
            name: self.name@,
            recipe: self.recipe@,
            asked: self.asked@,
            metadata: psyfile::env_view(self.metadata),
            attach: self.attach,
        }
    }
}

/// The number of the next instance of a template.
pub open spec fn next_instance(r: RootView, name: Seq<char>) -> int {
    if r.counters.dom().contains(name) {
        r.counters[name] + 1
    } else {
        1
    }
}

/// The extra arguments of a request to run a unit: a command that comes with it
/// counts as arguments.
pub open spec fn extra_arguments(a: RunArgs) -> Seq<Seq<char>> {
    match a.extra_args {
        Some(e) => text::texts(e@),
        None => text::texts(a.command@),
    }
}

/// A text with the values of variables put in, where there is one.
pub open spec fn expanded_dir(
    d: Option<Seq<char>>,
    vars: Map<Seq<char>, Seq<char>>,
) -> Option<Seq<char>> {
    match d {
        Some(s) => Some(shell::interpolated(s, vars)),
        None => None,
    }
}

/// The command that runs a line: in a shell, or in a shell of a root of its own
/// below this one.
pub open spec fn line_command(
    system: System,
    sub_root: bool,
    sock: Seq<char>,
    name: Seq<char>,
    line: Seq<char>,
) -> Seq<Seq<char>> {
    if sub_root {
        seq!["psy"@, "up"@, "--parent"@, sock, "--name"@, name, "--"@] + shell::shell_words(
            system,
            line,
        )
    } else {
        shell::shell_words(system, line)
    }
}

/// Makes the command that runs a line.
pub(crate) fn command_for(
    system: System,
    sub_root: bool,
    sock: &str,
    name: &str,
    line: &str,
) -> (r: Vec<String>)
    ensures
        text::texts(r@) == line_command(system, sub_root, sock@, name@, line@),
{
    let mut words = shell::build_shell_command(system, line);
    if !sub_root {
        return words;
    }
    let ghost inner = words@;
    let mut v: Vec<String> = Vec::new();
    v.push(text::copy("psy"));
    v.push(text::copy("up"));
    v.push(text::copy("--parent"));
    v.push(text::copy(sock));
    v.push(text::copy("--name"));
    v.push(text::copy(name));
    v.push(text::copy("--"));
    v.append(&mut words);
    proof {
        let outer = seq!["psy"@, "up"@, "--parent"@, sock@, "--name"@, name@, "--"@];
        assert(text::texts(v@) =~= outer + text::texts(inner));
    }
    v
}

/// What references to the ports of some dependencies stand for.
pub open spec fn dep_port_vars(r: RootView, deps: Seq<DependencyView>) -> Map<
    Seq<char>,
    Seq<char>,
>
    decreases deps.len(),
{
    if deps.len() == 0 {
        Map::empty()
    } else {
        let d = deps.last().name;
        let before = dep_port_vars(r, deps.drop_last());
        if r.table.dom().contains(d) {
            before.union_prefer_right(ports::port_vars(r.table[d].ports, "@"@ + d))
        } else {
            before
        }
    }
}

/// What references to ports in the texts of a unit stand for: the ports of the
/// dependencies, and the ports of the process itself.
pub open spec fn known_ports(
    r: RootView,
    deps: Seq<DependencyView>,
    given: Seq<(Seq<char>, u16)>,
) -> Map<Seq<char>, Seq<char>> {
    dep_port_vars(r, deps).union_prefer_right(ports::port_vars(given, ""@))
}

/// The ports that the process of a name has.
pub open spec fn ports_had(r: RootView, name: Seq<char>) -> Seq<(Seq<char>, u16)> {
    if r.table.dom().contains(name) {
        r.table[name].ports
    } else {
        Seq::empty()
    }
}

/// The process that a command of its own starts, with the ports that it is given.
pub open spec fn plain_spawn(t: LaunchView, given: Seq<(Seq<char>, u16)>) -> SpawnView {
    let known = ports::port_vars(given, ""@);
    SpawnView {
        name: t.name,
        command: t.recipe.command,
        env: ports::port_env(given).union_prefer_right(t.recipe.env),
        restart: t.recipe.restart,
        attach: t.attach,
        interactive: t.recipe.interactive,
        working_dir: t.recipe.working_dir,
        ready: ports::opt_probe_in(t.recipe.ready, known),
        healthcheck: ports::opt_probe_in(t.recipe.healthcheck, known),
        ports: given,
        sub_root: t.recipe.sub_root,
        recipe: t.recipe,
        asked: t.asked,
        metadata: t.metadata,
    }
}

/// The process that the line of a unit starts, with the ports that it is given.
/// An instance of a template finds its number in its environment.
pub open spec fn line_spawn(
    r: RootView,
    t: LaunchView,
    line: Seq<char>,
    host: Map<Seq<char>, Seq<char>>,
    given: Seq<(Seq<char>, u16)>,
) -> SpawnView {
    let known = known_ports(r, t.recipe.depends_on, given);
    let vars = root::visible_vars(host, r, t.recipe.env).union_prefer_right(known);
    let env = ports::port_env(given).union_prefer_right(root::expanded(t.recipe.env, vars));
    SpawnView {
        name: t.name,
        command: line_command(
            r.system,
            t.recipe.sub_root,
            r.psy_sock,
            t.name,
            shell::interpolated(line, vars),
        ),
        env: match t.recipe.instance {
            Some(n) => env.insert("PSY_INSTANCE"@, text::decimal(n as nat)),
            None => env,
        },
        restart: t.recipe.restart,
        attach: t.attach,
        interactive: t.recipe.interactive,
        working_dir: expanded_dir(t.recipe.working_dir, vars),
        ready: ports::opt_probe_in(t.recipe.ready, known),
        healthcheck: ports::opt_probe_in(t.recipe.healthcheck, known),
        ports: given,
        sub_root: t.recipe.sub_root,
        recipe: t.recipe,
        asked: t.asked,
        metadata: t.metadata,
    }
}

/// The process that a start leads to, with the ports that it is given.
pub open spec fn spawn_of(
    r: RootView,
    t: LaunchView,
    host: Map<Seq<char>, Seq<char>>,
    given: Seq<(Seq<char>, u16)>,
) -> SpawnView {
    match t.recipe.line {
        Some(line) => line_spawn(r, t, line, host, given),
        None => plain_spawn(t, given),
    }
}

/// What a process of a unit is started from, where a request adds something to the
/// unit.
pub open spec fn unit_recipe(unit: UnitView, asked: AskedView, instance: Option<u32>) -> RecipeView {
    RecipeView {
        line: Some(shell::command_with(unit.command, asked.args)),
        command: Seq::empty(),
        env: unit.env.union_prefer_right(asked.env),
        restart: if asked.restart != RestartPolicy::No {
            asked.restart
        } else {
            unit.restart
        },
        interactive: asked.interactive || unit.interactive,
        working_dir: unit.working_dir,
        ready: unit.ready,
        healthcheck: unit.healthcheck,
        depends_on: unit.depends_on,
        ports: unit.ports,
        sub_root: unit.sub_root,
        instance,
    }
}

/// What a request to run a unit adds to the unit.
pub open spec fn asked_for(a: RunArgs) -> AskedView {
    AskedView {
        args: extra_arguments(a),
        env: psyfile::env_view(a.env),
        restart: a.restart,
        interactive: a.interactive,
    }
}

/// The name of a process of a unit.
pub open spec fn process_name(unit: Seq<char>, instance: Option<u32>) -> Seq<char> {
    match instance {
        Some(n) => unit + "."@ + text::decimal(n as nat),
        None => unit,
    }
}

/// The process that a request to run a unit starts, with the ports that it is
/// given.
pub open spec fn unit_spawn(
    r: RootView,
    a: RunArgs,
    unit: UnitView,
    host: Map<Seq<char>, Seq<char>>,
    given: Seq<(Seq<char>, u16)>,
) -> SpawnView {
    let instance = if unit.singleton {
        None
    } else {
        Some(next_instance(r, a.name@) as u32)
    };
    spawn_of(
        r,
        LaunchView {
            name: process_name(a.name@, instance),
            recipe: unit_recipe(unit, asked_for(a), instance),
            asked: asked_for(a),
            metadata: psyfile::env_view(a.metadata),
            attach: a.attach,
        },
        host,
        given,
    )
}

/// A root after a unit has been prepared: a template has one more instance.
pub open spec fn counted(r: RootView, name: Seq<char>, singleton: bool) -> RootView {
    if singleton {
        r
    } else {
        RootView { counters: r.counters.insert(name, next_instance(r, name) as u32), ..r }
    }
}

/// A copy of an optional probe.
pub fn copy_probe(p: &Option<ProbeConfig>) -> (r: Option<ProbeConfig>)
    ensures
        psyfile::probe_view(r) == psyfile::probe_view(*p),
{
    match p {
        Some(c) => Some(c.clone()),
        None => None,
    }
}

/// A copy of a list of texts.
pub fn copy_all(v: &Vec<String>) -> (r: Vec<String>)
    ensures
        text::texts(r@) == text::texts(v@),
{
    let mut out: Vec<String> = Vec::new();
    let mut i: usize = 0;
    while i < v.len()
        invariant
            i <= v.len(),
            out@.len() == i,
            forall|j: int| 0 <= j < i ==> (#[trigger] out@[j])@ == v@[j]@,
        decreases v.len() - i,
    {
        out.push(text::copy(v[i].as_str()));
        i += 1;
    }
    proof {
        assert(text::texts(out@) =~= text::texts(v@));
    }
    out
}

/// The texts of a unit with the values of variables put in.
pub(crate) fn expand_dir(d: &Option<String>, vars: &NameMap<String>) -> (r: Option<String>)
    ensures
        text::opt_text(r) == expanded_dir(text::opt_text(*d), psyfile::env_view(*vars)),
{
    match d {
        Some(s) => Some(shell::interpolate(s.as_str(), vars)),
        None => None,
    }
}

impl SharedRoot {
    /// Collects what references to ports in the texts of a unit stand for.
    pub(crate) fn ports_known(&self, deps: &Vec<Dependency>, given: &Vec<(String, u16)>) -> (r:
        NameMap<String>)
        ensures
            psyfile::env_view(r) == known_ports(
                self@,
                psyfile::deps_view(deps@),
                ports::given(given@),
            ),
    {
        let mut out: NameMap<String> = NameMap::new();
        let ghost all = psyfile::deps_view(deps@);
        let mut i: usize = 0;
        proof {
            assert(psyfile::env_view(out) =~= dep_port_vars(self@, all.take(0)));
        }
        while i < deps.len()
            invariant
                i <= deps.len(),
                all == psyfile::deps_view(deps@),
                psyfile::env_view(out) == dep_port_vars(self@, all.take(i as int)),
            decreases deps.len() - i,
        {
            proof {
                assert(all.take(i + 1).drop_last() =~= all.take(i as int));
                assert(all.take(i + 1).last() == deps@[i as int]@);
            }
            let d = deps[i].name.as_str();
            match self.entry(d) {
                Some(e) => {
                    let suffix = text::concat2("@", d);
                    ports::add_port_vars(&mut out, &e.ports, suffix.as_str());
                },
                None => {},
            }
            i += 1;
        }
        proof {
            assert(all.take(all.len() as int) =~= all);
        }
        ports::add_port_vars(&mut out, given, "");
        out
    }

    /// Finds the first of some processes, from a place in the list on, that is running.
    pub fn next_running(&self, names: &Vec<String>, from: usize) -> (r: Option<usize>)
        ensures
            match r {
                Some(i) => from <= i < names@.len() && root::runs(self@, names@[i as int]@)
                    && forall|j: int|
                    from <= j < i ==> !root::runs(self@, (#[trigger] names@[j])@),
                None => forall|j: int|
                    from <= j < names@.len() ==> !root::runs(self@, (#[trigger] names@[j])@),
            },
    {
        let mut i: usize = from;
        while i < names.len()
            invariant
                from <= i,
                forall|j: int|
                    from <= j < i && j < names@.len() ==> !root::runs(
                        self@,
                        (#[trigger] names@[j])@,
                    ),
            decreases names.len() - i,
        {
            if self.is_running(names[i].as_str()) {
                return Some(i);
            }
            i += 1;
        }
        None
    }

    /// Lists the ports that a process asks for. Those that a process of its name had
    /// are tried again, and those of one that still runs are kept.
    pub fn ports_wanted(&self, name: &str, asked: &Vec<PortDefArg>) -> (r: Vec<Wanted>)
        ensures
            ports::wanted_views(r@) == ports::wanted_ports(
                ports_had(self@, name@),
                root::runs(self@, name@),
                api::ports_asked(asked@),
            ),
    {
        let none: Vec<(String, u16)> = Vec::new();
        proof {
            assert(ports::given(none@) =~= Seq::<(Seq<char>, u16)>::empty());
        }
        match self.entry(name) {
            Some(e) => ports::list_wanted(&e.ports, e.state == ProcessState::Running, asked),
            None => ports::list_wanted(&none, false, asked),
        }
    }

    /// Tests whether a template can have one more instance: instances are counted
    /// with 32 bits.
    pub fn instances_left(&self, name: &str) -> (r: bool)
        ensures
            r == (next_instance(self@, name@) <= u32::MAX),
    {
        match self.template_counters.get(name) {
            Some(n) => *n < u32::MAX,
            None => true,
        }
    }

    /// Prepares to start a unit. `host` is the environment of the root itself.
    pub fn prepare_unit(
        &mut self,
        a: &RunArgs,
        unit: &UnitDef,
        host: &NameMap<String>,
        given: &Vec<(String, u16)>,
    ) -> (r: SpawnRequest)
        requires
            !unit.singleton ==> next_instance(old(self)@, a.name@) <= u32::MAX,
        ensures
            r@ == unit_spawn(
                old(self)@,
                *a,
                unit@,
                psyfile::env_view(*host),
                ports::given(given@),
            ),
            final(self)@ == counted(old(self)@, a.name@, unit.singleton),
            final(self).names() == old(self).names(),
    {
        let number: Option<u32> = if unit.singleton {
            None
        } else {
            match self.template_counters.get(a.name.as_str()) {
                Some(c) => Some(*c + 1),
                None => Some(1),
            }
        };
        let name = match number {
            Some(n) => {
                let digits = text::decimal_of(n as u128);
                text::concat3(a.name.as_str(), ".", digits.as_str())
            },
            None => text::copy(a.name.as_str()),
        };
        let asked = Asked {
            args: match &a.extra_args {
                Some(e) => copy_all(e),
                None => copy_all(&a.command),
            },
            env: root::copy_env(&a.env),
            restart: a.restart,
            interactive: a.interactive,
        };
        let t = Launch {
            name,
            recipe: recipe_of(unit, &asked, number),
            asked,
            metadata: root::copy_env(&a.metadata),
            attach: a.attach,
        };
        let r = self.spawn(t, host, given);
        if !unit.singleton {
            let _ = self.count_instance(a.name.as_str());
        }
        r
    }

    /// Works out the process that a start leads to. `host` is the environment of the
    /// root itself.
    pub fn spawn(&self, t: Launch, host: &NameMap<String>, given: &Vec<(String, u16)>) -> (r:
        SpawnRequest)
        ensures
            r@ == spawn_of(self@, t@, psyfile::env_view(*host), ports::given(given@)),
    {
        let ghost tv = t@;
        let ghost hv = psyfile::env_view(*host);
        let line = match &t.recipe.line {
            Some(line) => text::copy(line.as_str()),
            None => {
                return spawn_plain(t, given);
            },
        };
        let known = self.ports_known(&t.recipe.depends_on, given);
        let mut vars = self.visible(host, &t.recipe.env);
        root::overlay(&mut vars, &known);
        let run_line = shell::interpolate(line.as_str(), &vars);
        let mut env = ports::port_env_of(given);
        root::overlay(&mut env, &root::expand_env(&t.recipe.env, &vars));
        match t.recipe.instance {
            Some(n) => {
                let ghost was = psyfile::env_view(env);
                let number = text::decimal_of(n as u128);
                let ghost nv = number@;
                env.insert(text::copy("PSY_INSTANCE"), number);
                proof {
                    assert(psyfile::env_view(env) =~= was.insert("PSY_INSTANCE"@, nv));
                }
            },
            None => {},
        }
        let command = command_for(
            self.system,
            t.recipe.sub_root,
            self.psy_sock.as_str(),
            t.name.as_str(),
            run_line.as_str(),
        );
        let r = SpawnRequest {
            name: t.name,
            command,
            env,
            restart: t.recipe.restart,
            attach: t.attach,
            interactive: t.recipe.interactive,
            working_dir: expand_dir(&t.recipe.working_dir, &vars),
            ready: ports::put_in_probe(&t.recipe.ready, &known),
            healthcheck: ports::put_in_probe(&t.recipe.healthcheck, &known),
            ports: ports::copy_ports(given),
            sub_root: t.recipe.sub_root,
            recipe: t.recipe,
            asked: t.asked,
            metadata: t.metadata,
        };
        proof {
            assert(r@ =~= line_spawn(self@, tv, line@, hv, ports::given(given@)));
        }
        r
    }
}

/// Works out the process that a command of its own starts.
fn spawn_plain(t: Launch, given: &Vec<(String, u16)>) -> (r: SpawnRequest)
    ensures
        r@ == plain_spawn(t@, ports::given(given@)),
{
    let ghost tv = t@;
    let mut known: NameMap<String> = NameMap::new();
    let ghost none = psyfile::env_view(known);
    ports::add_port_vars(&mut known, given, "");
    let mut env = ports::port_env_of(given);
    root::overlay(&mut env, &t.recipe.env);
    proof {
        let vars = ports::port_vars(ports::given(given@), ""@);
        assert(none.union_prefer_right(vars) =~= vars);
    }
    let r = SpawnRequest {
        name: t.name,
        command: copy_all(&t.recipe.command),
        env,
        restart: t.recipe.restart,
        attach: t.attach,
        interactive: t.recipe.interactive,
        working_dir: process::copy_opt(&t.recipe.working_dir),
        ready: ports::put_in_probe(&t.recipe.ready, &known),
        healthcheck: ports::put_in_probe(&t.recipe.healthcheck, &known),
        ports: ports::copy_ports(given),
        sub_root: t.recipe.sub_root,
        recipe: t.recipe,
        asked: t.asked,
        metadata: t.metadata,
    };
    proof {
        assert(r@ =~= plain_spawn(tv, ports::given(given@)));
    }
    r
}

/// Makes the recipe of a process of a unit.
pub fn recipe_of(unit: &UnitDef, asked: &Asked, instance: Option<u32>) -> (r: Recipe)
    ensures
        r@ == unit_recipe(unit@, asked@, instance),
{
    let mut env = root::copy_env(&unit.env);
    root::overlay(&mut env, &asked.env);
    let r = Recipe {
        line: Some(shell::build_command_with_args(unit.command.as_str(), &asked.args)),
        command: Vec::new(),
        env,
        restart: if asked.restart != RestartPolicy::No {
            asked.restart
        } else {
            unit.restart
        },
        interactive: asked.interactive || unit.interactive,
        working_dir: process::copy_opt(&unit.working_dir),
        ready: copy_probe(&unit.ready),
        healthcheck: copy_probe(&unit.healthcheck),
        depends_on: recipe::copy_deps(&unit.depends_on),
        ports: recipe::copy_asked(&unit.ports),
        sub_root: unit.sub_root,
        instance,
    };
    proof {
        assert(r@ =~= unit_recipe(unit@, asked@, instance));
    }
    r
}

/// The process that a request with a command of its own starts with the ports that
/// it is given, or what is wrong with its probes.
pub open spec fn adhoc_spawn(a: RunArgs, given: Seq<(Seq<char>, u16)>) -> Result<
    SpawnView,
    Seq<char>,
> {
    match (
        psyfile::opt_probe_sent("ready"@, a.ready),
        psyfile::opt_probe_sent("healthcheck"@, a.healthcheck),
    ) {
        (Err(e), _) => Err(e),
        (_, Err(e)) => Err(e),
        (Ok(ready), Ok(healthcheck)) => Ok(
            plain_spawn(
                LaunchView {
                    name: a.name@,
                    recipe: RecipeView {
                        line: None,
                        command: text::texts(a.command@),
                        env: psyfile::env_view(a.env),
                        restart: a.restart,
                        interactive: a.interactive,
                        working_dir: text::opt_text(a.cwd),
                        ready,
                        healthcheck,
                        depends_on: recipe::deps_sent(a.depends_on@),
                        ports: api::ports_asked(a.ports@),
                        sub_root: false,
                        instance: None,
                    },
                    asked: AskedView { args: Seq::empty(), ..asked_for(a) },
                    metadata: psyfile::env_view(a.metadata),
                    attach: a.attach,
                },
                given,
            ),
        ),
    }
}

/// Prepares to start a command.
pub fn prepare_adhoc(id: &str, a: &RunArgs, given: &Vec<(String, u16)>) -> (r: Result<
    SpawnRequest,
    Response,
>)
    ensures
        match adhoc_spawn(*a, ports::given(given@)) {
            Ok(s) => r matches Ok(x) && x@ == s,
            Err(m) => r matches Err(e) && root::is_error(e, id@, m),
        },
{
    let ready = match psyfile::read_opt_probe("ready", &a.ready) {
        Ok(p) => p,
        Err(e) => {
            return Err(Response::err(id, e.as_str()));
        },
    };
    let healthcheck = match psyfile::read_opt_probe("healthcheck", &a.healthcheck) {
        Ok(p) => p,
        Err(e) => {
            return Err(Response::err(id, e.as_str()));
        },
    };
    let t = Launch {
        name: text::copy(a.name.as_str()),
        recipe: Recipe {
            line: None,
            command: copy_all(&a.command),
            env: root::copy_env(&a.env),
            restart: a.restart,
            interactive: a.interactive,
            working_dir: process::copy_opt(&a.cwd),
            ready,
            healthcheck,
            depends_on: recipe::read_deps(&a.depends_on),
            ports: recipe::copy_asked(&a.ports),
            sub_root: false,
            instance: None,
        },
        asked: Asked {
            args: Vec::new(),
            env: root::copy_env(&a.env),
            restart: a.restart,
            interactive: a.interactive,
        },
        metadata: root::copy_env(&a.metadata),
        attach: a.attach,
    };
    proof {
        assert(t.asked@ =~= (AskedView { args: Seq::empty(), ..asked_for(*a) }));
    }
    Ok(spawn_plain(t, given))
}

/// The first dependency of a request that is not known.
pub open spec fn first_missing(r: RootView, deps: Seq<DependencyArg>) -> Option<Seq<char>>
    decreases deps.len(),
{
    if deps.len() == 0 {
        None
    } else if r.table.dom().contains(deps[0].name@) {
        first_missing(r, deps.skip(1))
    } else {
        Some(deps[0].name@)
    }
}

impl SharedRoot {
    /// Checks the dependencies of a request with a command of its own: all of them
    /// must be known. Each of them then has to become ready.
    pub fn check_dependencies(&self, id: &str, deps: &Vec<DependencyArg>) -> (r: Option<Response>)
        ensures
            match first_missing(self@, deps@) {
                Some(d) => r matches Some(a) && root::is_error(a, id@, root::not_found(d)),
                None => r is None,
            },
    {
        let mut i: usize = 0;
        proof {
            assert(deps@.skip(0) =~= deps@);
        }
        while i < deps.len()
            invariant
                i <= deps.len(),
                first_missing(self@, deps@) == first_missing(self@, deps@.skip(i as int)),
            decreases deps.len() - i,
        {
            proof {
                assert(deps@.skip(i as int)[0] == deps@[i as int]);
                assert(deps@.skip(i as int).skip(1) =~= deps@.skip(i + 1));
            }
            let name = deps[i].name.as_str();
            if self.entry(name).is_none() {
                let m = text::concat3("process '", name, "' not found");
                return Some(Response::err(id, m.as_str()));
            }
            i += 1;
        }
        None
    }
}

// ---------------------------------------------------------------------------
// Starting it
// ---------------------------------------------------------------------------

/// The entry of a process that has not run under its name before.
pub open spec fn fresh_entry(s: SpawnView) -> EntryView {
    EntryView {
        working_dir: s.working_dir,
        ready: s.ready is None,
        ready_config: s.ready,
        healthcheck_config: s.healthcheck,
        ports: s.ports,
        sub_root: s.sub_root,
        recipe: s.recipe,
        asked: s.asked,
        metadata: s.metadata,
        ..process::new_entry(s.name, s.command, s.env, s.restart, false)
    }
}

/// The entry of a process that takes the place of another: the past runs are
/// kept, and the last run of the other is one of them.
pub open spec fn succeeding_entry(s: SpawnView, before: EntryView) -> EntryView {
    EntryView {
        run_history: process::archived(before).run_history,
        current_run_id: process::archived(before).current_run_id,
        ..fresh_entry(s)
    }
}

/// The entry of a process to start.
pub open spec fn prepared_entry(r: RootView, s: SpawnView) -> EntryView {
    if r.table.dom().contains(s.name) {
        succeeding_entry(s, r.table[s.name])
    } else {
        fresh_entry(s)
    }
}

/// A root without the entry of a process.
pub open spec fn without_entry(r: RootView, name: Seq<char>) -> RootView {
    RootView { table: r.table.remove(name), ..r }
}

/// Builds the entry of a process that has not run under its name before.
pub(crate) fn build_entry(s: SpawnRequest) -> (e: ProcessEntry)
    ensures
        e@ == fresh_entry(s@),
{
    let ghost want = fresh_entry(s@);
    let mut e = ProcessEntry::new(s.name, s.command, s.env, s.restart, false);
    e.working_dir = s.working_dir;
    if s.ready.is_some() {
        e.ready = false;
    }
    e.ready_config = s.ready;
    e.healthcheck_config = s.healthcheck;
    e.ports = s.ports;
    e.sub_root = s.sub_root;
    e.recipe = s.recipe;
    e.asked = s.asked;
    e.metadata = s.metadata;
    proof {
        assert(e@ =~= want);
    }
    e
}

impl SharedRoot {
    /// Makes room for a process to start. A process that has ended leaves the
    /// table and hands its past runs on; a running one is in the way.
    pub fn prepare_spawn(&mut self, id: &str, s: SpawnRequest) -> (r: Result<
        ProcessEntry,
        Response,
    >)
        requires
            old(self)@.table.dom().contains(s.name@) && !root::runs(old(self)@, s.name@) ==> old(
                self,
            )@.table[s.name@].current_run_id < u32::MAX,
        ensures
            match r {
                Ok(e) => {
                    &&& !root::runs(old(self)@, s.name@)
                    &&& e@ == prepared_entry(old(self)@, s@)
                    &&& final(self)@ == without_entry(old(self)@, s.name@)
                },
                Err(a) => {
                    &&& root::runs(old(self)@, s.name@)
                    &&& root::is_error(a, id@, root::already_running(s.name@))
                    &&& final(self)@ == old(self)@
                },
            },
    {
        let ghost before = self@;
        let ghost sv = s@;
        match self.find(s.name.as_str()) {
            Some(i) => {
                if self.nth(i).state == ProcessState::Running {
                    let m = text::concat3("process '", s.name.as_str(), "' is already running");
                    return Err(Response::err(id, m.as_str()));
                }
                let (k, mut was) = self.take(i);
                let ghost old_entry = was@;
                was.archive_current_run();
                let mut e = build_entry(s);
                e.current_run_id = was.current_run_id;
                e.run_history = was.run_history;
                proof {
                    assert(e@ =~= succeeding_entry(sv, old_entry));
                }
                Ok(e)
            },
            None => {
                proof {
                    assert(before.table.remove(sv.name) =~= before.table);
                }
                Ok(build_entry(s))
            },
        }
    }
}

/// What follows once a process has been started.
#[derive(Debug)]
pub struct Spawned {
    pub answer: Response,
    /// Whether the client stays attached.
    pub attach: bool,
    /// The probe that tells when the process is ready.
    pub ready_probe: Option<ProbeConfig>,
    /// The probe that tells whether the process is healthy.
    pub healthcheck: Option<ProbeConfig>,
}

/// The readiness probe that has to be carried out: one that waits for the process
/// to exit is settled when it does.
pub open spec fn active_probe(p: Option<ProbeView>) -> Option<ProbeView> {
    match p {
        Some(c) => if c.probe is Exit {
            None
        } else {
            Some(c)
        },
        None => None,
    }
}

/// The readiness probe that has to be carried out.
pub fn probe_to_run(p: &Option<ProbeConfig>) -> (r: Option<ProbeConfig>)
    ensures
        psyfile::probe_view(r) == active_probe(psyfile::probe_view(*p)),
{
    match p {
        Some(c) => match &c.probe {
            ProbeKind::Exit(_) => None,
            _ => Some(c.clone()),
        },
        None => None,
    }
}

/// Some ports as they are sent.
pub open spec fn ports_json(s: Seq<(Seq<char>, u16)>) -> Js {
    json::object_of(s.map_values(|p: (Seq<char>, u16)| (p.0, Js::Unsigned(p.1 as u64))))
}

/// The answer to a request that has started a process. It tells the ports that the
/// process was given, where there are any.
pub open spec fn started_json(name: Seq<char>, given: Seq<(Seq<char>, u16)>) -> Js {
    if given.len() == 0 {
        root::status_json(name, "running"@)
    } else {
        json::object_of(
            Seq::empty()
                .push(("name"@, Js::Text(name)))
                .push(("status"@, Js::Text("running"@)))
                .push(("ports"@, ports_json(given))),
        )
    }
}

fn ports_value(s: &Vec<(String, u16)>) -> (r: Json)
    ensures
        json::model(r) == ports_json(ports::given(s@)),
{
    let mut e: Vec<(String, Json)> = Vec::new();
    let mut i: usize = 0;
    while i < s.len()
        invariant
            i <= s.len(),
            e@.len() == i,
            forall|j: int|
                0 <= j < i ==> (#[trigger] e@[j]).0@ == s@[j].0@ && json::model(e@[j].1)
                    == Js::Unsigned(s@[j].1 as u64),
        decreases s.len() - i,
    {
        e.push((text::copy(s[i].0.as_str()), Json::Unsigned(s[i].1 as u64)));
        i += 1;
    }
    proof {
        assert(json::entry_models(e@) =~= ports::given(s@).map_values(
            |p: (Seq<char>, u16)| (p.0, Js::Unsigned(p.1 as u64)),
        ));
    }
    json::object(e)
}

fn started_value(name: &str, given: &Vec<(String, u16)>) -> (r: Json)
    ensures
        json::model(r) == started_json(name@, ports::given(given@)),
{
    if given.len() == 0 {
        return root::status_value(name, "running");
    }
    Fields::new()
        .with_text("name", name)
        .with_text("status", "running")
        .with("ports", ports_value(given))
        .done()
}

impl SharedRoot {
    /// Notes that a process has been started, and answers the request.
    pub fn commit_spawn(
        &mut self,
        id: &str,
        e: ProcessEntry,
        pid: Option<u32>,
        now: Timestamp,
        attach: bool,
        interactive: bool,
    ) -> (r: Spawned)
        ensures
            final(self)@ == root::with_entry(
                old(self)@,
                e@.name,
                process::started(e@, pid, now, attach, interactive && !attach),
            ),
            root::is_success(r.answer, id@, started_json(e@.name, e@.ports)),
            r.attach == attach,
            psyfile::probe_view(r.ready_probe) == active_probe(e@.ready_config),
            psyfile::probe_view(r.healthcheck) == e@.healthcheck_config,
    {
        let mut e = e;
        let data = started_value(e.name.as_str(), &e.ports);
        let ready_probe = probe_to_run(&e.ready_config);
        let healthcheck = copy_probe(&e.healthcheck_config);
        e.mark_started(pid, now, attach, interactive && !attach);
        let name = text::copy(e.name.as_str());
        self.add_entry(name, e);
        Spawned { answer: Response::ok(id, Some(data)), attach, ready_probe, healthcheck }
    }
}

/// The answer where a process could not be started. Its entry is gone.
pub fn spawn_failed(id: &str, error: &str) -> (r: Response)
    ensures
        root::is_error(r, id@, "spawn failed: "@ + error@),
{
    let m = text::concat2("spawn failed: ", error);
    Response::err(id, m.as_str())
}

/// A process that starts in place of one that has ended keeps its past runs, has
/// the last run as the newest of them, and a run number of its own.
pub proof fn lemma_rerun_keeps_history(r: RootView, s: SpawnView)
    requires
        root::consistent(r),
        r.table.dom().contains(s.name),
        r.table[s.name].current_run_id < u32::MAX,
    ensures
        prepared_entry(r, s).run_history == r.table[s.name].run_history.push(
            process::current_run(r.table[s.name]),
        ),
        prepared_entry(r, s).current_run_id == r.table[s.name].current_run_id + 1,
        process::numbered(prepared_entry(r, s)),
{
    process::lemma_archived(r.table[s.name]);
}

/// Starting a process keeps the root consistent.
pub proof fn lemma_spawn_consistent(
    r: RootView,
    s: SpawnView,
    pid: Option<u32>,
    now: Timestamp,
    attach: bool,
    interactive: bool,
)
    requires
        root::consistent(r),
        r.table.dom().contains(s.name) ==> r.table[s.name].current_run_id < u32::MAX,
    ensures
        root::consistent(
            root::with_entry(
                without_entry(r, s.name),
                s.name,
                process::started(prepared_entry(r, s), pid, now, attach, interactive),
            ),
        ),
{
    if r.table.dom().contains(s.name) {
        process::lemma_archived(r.table[s.name]);
    }
    let e = process::started(prepared_entry(r, s), pid, now, attach, interactive);
    assert(process::numbered(e));
}

/// The states that a root goes through from its start on. Each step either prepares to run
/// a template, which is named, or leaves the counts of instances as they are.
pub open spec fn is_history(states: Seq<RootView>, steps: Seq<Option<Seq<char>>>) -> bool {
    &&& states.len() == steps.len() + 1
    &&& states[0].counters == Map::<Seq<char>, u32>::empty()
    &&& forall|i: int|
        0 <= i < steps.len() ==> match #[trigger] steps[i] {
            Some(u) => next_instance(states[i], u) <= u32::MAX && states[i + 1].counters
                == counted(states[i], u, false).counters,
            None => states[i + 1].counters == states[i].counters,
        }
}

proof fn lemma_stopping_counts_kept(r: RootView, names: Seq<Seq<char>>, template: Seq<char>)
    ensures
        crate::root::control::stop_instances(r, names, template).counters == r.counters,
    decreases names.len(),
{
    if names.len() > 0 {
        lemma_stopping_counts_kept(r, names.drop_last(), template);
    }
}

/// What else happens to a root leaves the counts of instances as they are: starting and
/// forgetting processes, running a unit that is no template, output, probes, exits, stopping
/// and cleaning up.
pub proof fn lemma_counts_kept(
    r: RootView,
    name: Seq<char>,
    e: EntryView,
    names: Seq<Seq<char>>,
    run_id: u32,
    line: LineView,
    passed: bool,
    x: ExitInfo,
    now: Timestamp,
)
    ensures
        root::with_entry(r, name, e).counters == r.counters,
        without_entry(r, name).counters == r.counters,
        counted(r, name, true).counters == r.counters,
        crate::root::life::root_logged(r, name, run_id, line).counters == r.counters,
        crate::root::life::probed(r, name, passed).counters == r.counters,
        crate::root::life::after_exit(r, name, run_id, x, now).counters == r.counters,
        crate::root::control::stop_instances(r, names, name).counters == r.counters,
        crate::root::control::only_running(r).counters == r.counters,
{
    lemma_stopping_counts_kept(r, names, name);
}

/// How often a template is run in some steps.
pub open spec fn times_run(steps: Seq<Option<Seq<char>>>, template: Seq<char>) -> nat
    decreases steps.len(),
{
    if steps.len() == 0 {
        0
    } else if steps.last() == Some(template) {
        times_run(steps.drop_last(), template) + 1
    } else {
        times_run(steps.drop_last(), template)
    }
}

proof fn lemma_next_instance(
    states: Seq<RootView>,
    steps: Seq<Option<Seq<char>>>,
    template: Seq<char>,
    i: int,
)
    requires
        is_history(states, steps),
        0 <= i <= steps.len(),
    ensures
        next_instance(states[i], template) == times_run(steps.take(i), template) + 1,
    decreases i,
{
    if i > 0 {
        lemma_next_instance(states, steps, template, i - 1);
        assert(steps.take(i).drop_last() =~= steps.take(i - 1));
        assert(steps.take(i).last() == steps[i - 1]);
        match steps[i - 1] {
            Some(u) => {
                let before = states[i - 1].counters;
                let after = states[i].counters;
                assert(after == before.insert(u, next_instance(states[i - 1], u) as u32));
            },
            None => {},
        }
    }
}

proof fn lemma_times_run_grow(steps: Seq<Option<Seq<char>>>, template: Seq<char>, i: int, j: int)
    requires
        0 <= i <= j <= steps.len(),
    ensures
        times_run(steps.take(i), template) <= times_run(steps.take(j), template),
    decreases j - i,
{
    if i < j {
        lemma_times_run_grow(steps, template, i, j - 1);
        assert(steps.take(j).drop_last() =~= steps.take(j - 1));
    }
}

/// The n-th run of a template since the root was started has the number n in its name and in
/// its environment.
pub proof fn lemma_instance_number(
    states: Seq<RootView>,
    steps: Seq<Option<Seq<char>>>,
    i: int,
    a: RunArgs,
    unit: UnitView,
    host: Map<Seq<char>, Seq<char>>,
    given: Seq<(Seq<char>, u16)>,
)
    requires
        is_history(states, steps),
        0 <= i < steps.len(),
        steps[i] == Some(a.name@),
        !unit.singleton,
    ensures
        ({
            let n = times_run(steps.take(i + 1), a.name@);
            let s = unit_spawn(states[i], a, unit, host, given);
            &&& n == times_run(steps.take(i), a.name@) + 1
            &&& s.name == a.name@ + "."@ + text::decimal(n)
            &&& s.env.dom().contains("PSY_INSTANCE"@)
            &&& s.env["PSY_INSTANCE"@] == text::decimal(n)
        }),
{
    lemma_next_instance(states, steps, a.name@, i);
    assert(steps.take(i + 1).drop_last() =~= steps.take(i));
    assert(steps.take(i + 1).last() == steps[i]);
}

/// No instance of a template gets the name of an earlier one as long as the root lives.
pub proof fn lemma_instances_differ(
    states: Seq<RootView>,
    steps: Seq<Option<Seq<char>>>,
    i: int,
    j: int,
    first: (RunArgs, UnitView),
    second: (RunArgs, UnitView),
    host: Map<Seq<char>, Seq<char>>,
    given: Seq<(Seq<char>, u16)>,
    host_later: Map<Seq<char>, Seq<char>>,
    given_later: Seq<(Seq<char>, u16)>,
)
    requires
        is_history(states, steps),
        0 <= i < j < steps.len(),
        first.0.name@ == second.0.name@,
        steps[i] == Some(first.0.name@),
        steps[j] == Some(second.0.name@),
        !first.1.singleton,
        !second.1.singleton,
    ensures
        unit_spawn(states[i], first.0, first.1, host, given).name != unit_spawn(
            states[j],
            second.0,
            second.1,
            host_later,
            given_later,
        ).name,
{
    let template = first.0.name@;
    lemma_next_instance(states, steps, template, i);
    lemma_next_instance(states, steps, template, j);
    assert(steps.take(i + 1).drop_last() =~= steps.take(i));
    assert(steps.take(i + 1).last() == steps[i]);
    lemma_times_run_grow(steps, template, i + 1, j);
    let a = next_instance(states[i], template) as nat;
    let b = next_instance(states[j], template) as nat;
    text::lemma_decimal_read_back(a);
    text::lemma_decimal_read_back(b);
    let n = (template + "."@).len() as int;
    assert((template + "."@ + text::decimal(a)).skip(n) =~= text::decimal(a));
    assert((template + "."@ + text::decimal(b)).skip(n) =~= text::decimal(b));
}

} // verus!
