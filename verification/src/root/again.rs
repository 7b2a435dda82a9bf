//! Starting a process again: the same thing runs, on fresh ports where the old ones
//! have been taken.
use crate::api;
use crate::names::NameMap;
use crate::ports;
use crate::ports::Wanted;
use crate::process;
use crate::process::{EntryView, ProcessEntry};
use crate::protocol::RunArgs;
use crate::psyfile;
use crate::psyfile::{UnitDef, UnitView};
use crate::recipe;
use crate::root;
use crate::root::run;
use crate::root::run::{Launch, LaunchView, SpawnRequest, SpawnView};
use crate::root::{RootView, SharedRoot};
use crate::text;
use crate::time::Timestamp;
use vstd::prelude::*;

verus! {

/// What a process runs, as it is started again without its unit.
pub open spec fn same_again(e: EntryView, name: Seq<char>) -> SpawnView {
    SpawnView {
        name,
        command: e.command,
        env: e.env,
        restart: e.restart_policy,
        attach: false,
        interactive: e.recipe.interactive,
        working_dir: e.working_dir,
        ready: e.ready_config,
        healthcheck: e.healthcheck_config,
        ports: e.ports,
        sub_root: e.sub_root,
        recipe: e.recipe,
        asked: e.asked,
        metadata: e.metadata,
    }
}

/// What a unit runs, as a process of it is started again: what the request for the
/// process added to the unit is added again, and an instance keeps its number.
pub open spec fn unit_again(
    r: RootView,
    e: EntryView,
    unit: UnitView,
    name: Seq<char>,
    host: Map<Seq<char>, Seq<char>>,
) -> SpawnView {
    run::spawn_of(
        r,
        LaunchView {
            name,
            recipe: run::unit_recipe(unit, e.asked, e.recipe.instance),
            asked: e.asked,
            metadata: e.metadata,
            attach: false,
        },
        host,
        e.ports,
    )
}

/// A process to start, with other ports. Where they are the ones that it had,
/// nothing changes.
pub open spec fn ported(
    r: RootView,
    s: SpawnView,
    host: Map<Seq<char>, Seq<char>>,
    given: Seq<(Seq<char>, u16)>,
) -> SpawnView {
    if given == s.ports {
        s
    } else {
        run::spawn_of(
            r,
            LaunchView {
                name: s.name,
                recipe: s.recipe,
                asked: s.asked,
                metadata: s.metadata,
                attach: s.attach,
            },
            host,
            given,
        )
    }
}

/// A process that restarts by itself, with other ports: what it runs is told of
/// them.
pub open spec fn entry_ported(
    r: RootView,
    e: EntryView,
    name: Seq<char>,
    host: Map<Seq<char>, Seq<char>>,
    given: Seq<(Seq<char>, u16)>,
) -> EntryView {
    let s = ported(r, same_again(e, name), host, given);
    EntryView {
        command: s.command,
        env: s.env,
        working_dir: s.working_dir,
        ready_config: s.ready,
        healthcheck_config: s.healthcheck,
        ports: s.ports,
        ..e
    }
}

/// What an entry runs, as it is started again without its unit.
pub fn repeat(e: &ProcessEntry, name: &str) -> (r: SpawnRequest)
    ensures
        r@ == same_again(e@, name@),
{
    let r = SpawnRequest {
        name: text::copy(name),
        command: run::copy_all(&e.command),
        env: root::copy_env(&e.env),
        restart: e.restart_policy,
        attach: false,
        interactive: e.recipe.interactive,
        working_dir: process::copy_opt(&e.working_dir),
        ready: run::copy_probe(&e.ready_config),
        healthcheck: run::copy_probe(&e.healthcheck_config),
        ports: ports::copy_ports(&e.ports),
        sub_root: e.sub_root,
        recipe: e.recipe.clone(),
        asked: e.asked.clone(),
        metadata: root::copy_env(&e.metadata),
    };
    proof {
        assert(r@ =~= same_again(e@, name@));
    }
    r
}

/// Tests whether two lists of ports are the same.
fn same_ports(a: &Vec<(String, u16)>, b: &Vec<(String, u16)>) -> (r: bool)
    ensures
        r == (ports::given(a@) == ports::given(b@)),
{
    let ghost av = ports::given(a@);
    let ghost bv = ports::given(b@);
    if a.len() != b.len() {
        proof {
            assert(av.len() != bv.len());
        }
        return false;
    }
    let mut i: usize = 0;
    while i < a.len()
        invariant
            i <= a.len(),
            a@.len() == b@.len(),
            av == ports::given(a@),
            bv == ports::given(b@),
            forall|j: int| 0 <= j < i ==> av[j] == bv[j],
        decreases a.len() - i,
    {
        if a[i].1 != b[i].1 || !text::same(a[i].0.as_str(), b[i].0.as_str()) {
            proof {
                assert(av[i as int] != bv[i as int]);
            }
            return false;
        }
        proof {
            assert(av[i as int] == bv[i as int]);
        }
        i += 1;
    }
    proof {
        assert(av =~= bv);
    }
    true
}

impl SpawnRequest {
    /// Lists the ports that a process asks for as it starts again: those that it had
    /// are tried first.
    pub fn ports_to_try(&self) -> (r: Vec<Wanted>)
        ensures
            ports::wanted_views(r@) == ports::wanted_ports(
                self@.ports,
                false,
                self@.recipe.ports,
            ),
    {
        ports::list_wanted(&self.ports, false, &self.recipe.ports)
    }
}

impl ProcessEntry {
    /// Lists the ports that a process asks for as it restarts by itself: those that it
    /// had are tried first.
    pub fn ports_to_try(&self) -> (r: Vec<Wanted>)
        ensures
            ports::wanted_views(r@) == ports::wanted_ports(
                self@.ports,
                false,
                self@.recipe.ports,
            ),
    {
        ports::list_wanted(&self.ports, false, &self.recipe.ports)
    }
}

impl SharedRoot {
    /// What a unit runs, as a process of it is started again.
    pub(crate) fn repeat_unit(
        &self,
        e: &ProcessEntry,
        unit: &UnitDef,
        name: &str,
        host: &NameMap<String>,
    ) -> (r: SpawnRequest)
        ensures
            r@ == unit_again(self@, e@, unit@, name@, psyfile::env_view(*host)),
    {
        let t = Launch {
            name: text::copy(name),
            recipe: run::recipe_of(unit, &e.asked, e.recipe.instance),
            asked: e.asked.clone(),
            metadata: root::copy_env(&e.metadata),
            attach: false,
        };
        self.spawn(t, host, &e.ports)
    }

    /// Gives a process that starts again the ports that have been found for it.
    /// `host` is the environment of the root itself.
    pub fn with_ports(
        &self,
        s: SpawnRequest,
        host: &NameMap<String>,
        given: &Vec<(String, u16)>,
    ) -> (r: SpawnRequest)
        ensures
            r@ == ported(self@, s@, psyfile::env_view(*host), ports::given(given@)),
    {
        if same_ports(given, &s.ports) {
            return s;
        }
        let t = Launch {
            name: s.name,
            recipe: s.recipe,
            asked: s.asked,
            metadata: s.metadata,
            attach: s.attach,
        };
        self.spawn(t, host, given)
    }

    /// Gives a process that restarts by itself the ports that have been found for it.
    /// `host` is the environment of the root itself.
    pub fn take_ports(&mut self, name: &str, host: &NameMap<String>, given: &Vec<(String, u16)>)
        ensures
            final(self)@ == if old(self)@.table.dom().contains(name@) {
                root::with_entry(
                    old(self)@,
                    name@,
                    entry_ported(
                        old(self)@,
                        old(self)@.table[name@],
                        name@,
                        psyfile::env_view(*host),
                        ports::given(given@),
                    ),
                )
            } else {
                old(self)@
            },
            final(self).names() == old(self).names(),
    {
        let ghost before = self@;
        let ghost names = self.names();
        let ghost hv = psyfile::env_view(*host);
        let ghost gv = ports::given(given@);
        match self.find(name) {
            Some(i) => {
                let s = repeat(self.nth(i), name);
                let s = self.with_ports(s, host, given);
                let (k, mut e) = self.take(i);
                let ghost was = e@;
                e.command = s.command;
                e.env = s.env;
                e.working_dir = s.working_dir;
                e.ready_config = s.ready;
                e.healthcheck_config = s.healthcheck;
                e.ports = s.ports;
                proof {
                    assert(e@ =~= entry_ported(before, was, name@, hv, gv));
                    root::lemma_put_back(before, k@, e@);
                    root::lemma_order_kept(names, i as int);
                }
                self.put(i, k, e);
            },
            None => {},
        }
    }
}

// ---------------------------------------------------------------------------
// Laws
// ---------------------------------------------------------------------------

/// A process with a command of its own restarts with the same command, variables,
/// directory, policy, probes, ports, dependencies and tags that the request gave it.
/// Only its output does not go to the client that asked for it.
pub proof fn lemma_same_again(
    r: RootView,
    a: RunArgs,
    given: Seq<(Seq<char>, u16)>,
    pid: Option<u32>,
    now: Timestamp,
    attach: bool,
    interactive: bool,
)
    requires
        run::adhoc_spawn(a, given) is Ok,
    ensures
        ({
            let s = run::adhoc_spawn(a, given)->Ok_0;
            let e = process::started(run::prepared_entry(r, s), pid, now, attach, interactive);
            same_again(e, s.name) == SpawnView { attach: false, ..s }
        }),
{
}

/// The dependencies, the ports and the tags of a request with a command of its own stay
/// with the process that it starts.
pub proof fn lemma_request_kept(
    r: RootView,
    a: RunArgs,
    given: Seq<(Seq<char>, u16)>,
    pid: Option<u32>,
    now: Timestamp,
    attach: bool,
    interactive: bool,
)
    requires
        run::adhoc_spawn(a, given) is Ok,
    ensures
        ({
            let s = run::adhoc_spawn(a, given)->Ok_0;
            let e = process::started(run::prepared_entry(r, s), pid, now, attach, interactive);
            &&& e.recipe.depends_on == recipe::deps_sent(a.depends_on@)
            &&& e.recipe.ports == api::ports_asked(a.ports@)
            &&& e.metadata == psyfile::env_view(a.metadata)
        }),
{
}

/// A process of a unit restarts with the same arguments, variables, policy, flag,
/// instance number and tags that the request gave it: with the same Psyfile,
/// environment and ports it is the same process again. Only its output does not go to
/// the client that asked for it.
pub proof fn lemma_unit_again(
    r: RootView,
    later: RootView,
    a: RunArgs,
    unit: UnitView,
    host: Map<Seq<char>, Seq<char>>,
    given: Seq<(Seq<char>, u16)>,
    pid: Option<u32>,
    now: Timestamp,
    attach: bool,
    interactive: bool,
)
    requires
        later.psy_sock == r.psy_sock,
        later.psy_root_pid == r.psy_root_pid,
        later.system == r.system,
        run::known_ports(later, unit.depends_on, given) == run::known_ports(
            r,
            unit.depends_on,
            given,
        ),
    ensures
        ({
            let s = run::unit_spawn(r, a, unit, host, given);
            let e = process::started(run::prepared_entry(r, s), pid, now, attach, interactive);
            unit_again(later, e, unit, s.name, host) == SpawnView { attach: false, ..s }
        }),
{
}

/// A process that starts again on the ports that it had is the same process, and one
/// that gets others has these, and no other, put into what it runs.
pub proof fn lemma_ported(
    r: RootView,
    s: SpawnView,
    host: Map<Seq<char>, Seq<char>>,
    given: Seq<(Seq<char>, u16)>,
)
    ensures
        ported(r, s, host, s.ports) == s,
        ported(r, s, host, given).ports == given,
        ported(r, s, host, given).name == s.name,
        ported(r, s, host, given).recipe == s.recipe,
        ported(r, s, host, given).asked == s.asked,
        ported(r, s, host, given).metadata == s.metadata,
        ported(r, s, host, given).attach == s.attach,
        given != s.ports && s.recipe.line is None ==> ported(r, s, host, given).env
            == ports::port_env(given).union_prefer_right(s.recipe.env),
{
}

/// A process that restarts by itself on the ports that it had stays as it was.
pub proof fn lemma_entry_ported(
    r: RootView,
    e: EntryView,
    name: Seq<char>,
    host: Map<Seq<char>, Seq<char>>,
)
    ensures
        entry_ported(r, e, name, host, e.ports) == e,
{
    assert(entry_ported(r, e, name, host, e.ports) =~= e);
}

} // verus!
