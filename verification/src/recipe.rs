//! What a process is started from. It stays with the process, so that a later
//! start of it runs the same thing again.
use crate::api;
use crate::names::NameMap;
use crate::process;
use crate::protocol::{DependencyArg, PortDefArg, RestartPolicy};
use crate::psyfile;
use crate::psyfile::{Dependency, DependencyView, ProbeConfig, ProbeView};
use crate::root;
use crate::root::run;
use crate::text;
use vstd::prelude::*;

verus! {

/// What a process is started from, before any port or variable is put in.
#[derive(Debug)]
pub struct Recipe {
    /// The line of a unit with its extra arguments. None where a command of its own
    /// is run.
    pub line: Option<String>,
    pub command: Vec<String>,
    pub env: NameMap<String>,
    pub restart: RestartPolicy,
    pub interactive: bool,
    pub working_dir: Option<String>,
    pub ready: Option<ProbeConfig>,
    pub healthcheck: Option<ProbeConfig>,
    pub depends_on: Vec<Dependency>,
    /// The ports that it asks for.
    pub ports: Vec<PortDefArg>,
    /// Whether it is a root of its own.
    pub sub_root: bool,
    /// Its number, where it is an instance of a template.
    pub instance: Option<u32>,
}

/// What a recipe says.
#[verifier::ext_equal]
pub ghost struct RecipeView {
    pub line: Option<Seq<char>>,
    pub command: Seq<Seq<char>>,
    pub env: Map<Seq<char>, Seq<char>>,
    pub restart: RestartPolicy,
    pub interactive: bool,
    pub working_dir: Option<Seq<char>>,
    pub ready: Option<ProbeView>,
    pub healthcheck: Option<ProbeView>,
    pub depends_on: Seq<DependencyView>,
    pub ports: Seq<(Seq<char>, Option<u16>)>,
    pub sub_root: bool,
    pub instance: Option<u32>,
}

impl View for Recipe {
    type V = RecipeView;

    open spec fn view(&self) -> RecipeView {
        RecipeView {
            line: text::opt_text(self.line),
            command: text::texts(self.command@),
            env: psyfile::env_view(self.env),
            restart: self.restart,
            interactive: self.interactive,
            working_dir: text::opt_text(self.working_dir),
            ready: psyfile::probe_view(self.ready),
            healthcheck: psyfile::probe_view(self.healthcheck),
            depends_on: psyfile::deps_view(self.depends_on@),
            ports: api::ports_asked(self.ports@),
            sub_root: self.sub_root,
            instance: self.instance,
        }
    }
}

/// What a request to run a process says beside its name: for a unit, what it adds
/// to the unit.
#[derive(Debug)]
pub struct Asked {
    /// The extra arguments.
    pub args: Vec<String>,
    pub env: NameMap<String>,
    pub restart: RestartPolicy,
    pub interactive: bool,
}

/// What a request says.
#[verifier::ext_equal]
pub ghost struct AskedView {
    pub args: Seq<Seq<char>>,
    pub env: Map<Seq<char>, Seq<char>>,
    pub restart: RestartPolicy,
    pub interactive: bool,
}

impl View for Asked {
    type V = AskedView;

    open spec fn view(&self) -> AskedView {
        AskedView {
            args: text::texts(self.args@),
            env: psyfile::env_view(self.env),
            restart: self.restart,
            interactive: self.interactive,
        }
    }
}

/// The recipe of a process that no request has started.
pub open spec fn no_recipe() -> RecipeView {
    RecipeView {
        line: None,
        command: Seq::empty(),
        env: Map::empty(),
        restart: RestartPolicy::No,
        interactive: false,
        working_dir: None,
        ready: None,
        healthcheck: None,
        depends_on: Seq::empty(),
        ports: Seq::empty(),
        sub_root: false,
        instance: None,
    }
}

/// Nothing that was asked for.
pub open spec fn nothing_asked() -> AskedView {
    AskedView {
        args: Seq::empty(),
        env: Map::empty(),
        restart: RestartPolicy::No,
        interactive: false,
    }
}

impl Recipe {
    /// The recipe of a process that no request has started.
    pub fn none() -> (r: Recipe)
        ensures
            r@ == no_recipe(),
    {
        let r = Recipe {
            line: None,
            command: Vec::new(),
            env: NameMap::new(),
            restart: RestartPolicy::No,
            interactive: false,
            working_dir: None,
            ready: None,
            healthcheck: None,
            depends_on: Vec::new(),
            ports: Vec::new(),
            sub_root: false,
            instance: None,
        };
        proof {
            assert(r@ =~= no_recipe());
        }
        r
    }
}

impl Asked {
    /// Nothing that was asked for.
    pub fn nothing() -> (r: Asked)
        ensures
            r@ == nothing_asked(),
    {
        let r = Asked {
            args: Vec::new(),
            env: NameMap::new(),
            restart: RestartPolicy::No,
            interactive: false,
        };
        proof {
            assert(r@ =~= nothing_asked());
        }
        r
    }
}

/// A copy of a list of dependencies.
pub fn copy_deps(s: &Vec<Dependency>) -> (r: Vec<Dependency>)
    ensures
        psyfile::deps_view(r@) == psyfile::deps_view(s@),
{
    let mut out: Vec<Dependency> = Vec::new();
    let mut i: usize = 0;
    while i < s.len()
        invariant
            i <= s.len(),
            out@.len() == i,
            forall|j: int| 0 <= j < i ==> (#[trigger] out@[j])@ == s@[j]@,
        decreases s.len() - i,
    {
        out.push(s[i].clone());
        i += 1;
    }
    proof {
        assert(psyfile::deps_view(out@) =~= psyfile::deps_view(s@));
    }
    out
}

/// What dependencies that were sent say.
pub open spec fn deps_sent(s: Seq<DependencyArg>) -> Seq<DependencyView> {
    s.map_values(|d: DependencyArg| DependencyView { name: d.name@, restart: d.restart })
}

/// Reads dependencies that were sent.
pub fn read_deps(s: &Vec<DependencyArg>) -> (r: Vec<Dependency>)
    ensures
        psyfile::deps_view(r@) == deps_sent(s@),
{
    let mut out: Vec<Dependency> = Vec::new();
    let mut i: usize = 0;
    while i < s.len()
        invariant
            i <= s.len(),
            out@.len() == i,
            forall|j: int|
                0 <= j < i ==> (#[trigger] out@[j]).name@ == s@[j].name@ && out@[j].restart
                    == s@[j].restart,
        decreases s.len() - i,
    {
        out.push(Dependency { name: text::copy(s[i].name.as_str()), restart: s[i].restart });
        i += 1;
    }
    proof {
        assert(psyfile::deps_view(out@) =~= deps_sent(s@));
    }
    out
}

/// A copy of a list of ports that are asked for.
pub fn copy_asked(s: &Vec<PortDefArg>) -> (r: Vec<PortDefArg>)
    ensures
        api::ports_asked(r@) == api::ports_asked(s@),
{
    let mut out: Vec<PortDefArg> = Vec::new();
    let mut i: usize = 0;
    while i < s.len()
        invariant
            i <= s.len(),
            out@.len() == i,
            forall|j: int|
                0 <= j < i ==> (#[trigger] out@[j]).name@ == s@[j].name@ && out@[j].default
                    == s@[j].default,
        decreases s.len() - i,
    {
        out.push(PortDefArg { name: text::copy(s[i].name.as_str()), default: s[i].default });
        i += 1;
    }
    proof {
        assert(api::ports_asked(out@) =~= api::ports_asked(s@));
    }
    out
}

impl Clone for Recipe {
    fn clone(&self) -> (r: Self)
        ensures
            r@ == self@,
    {
        Recipe {
            line: process::copy_opt(&self.line),
            command: run::copy_all(&self.command),
            env: root::copy_env(&self.env),
            restart: self.restart,
            interactive: self.interactive,
            working_dir: process::copy_opt(&self.working_dir),
            ready: run::copy_probe(&self.ready),
            healthcheck: run::copy_probe(&self.healthcheck),
            depends_on: copy_deps(&self.depends_on),
            ports: copy_asked(&self.ports),
            sub_root: self.sub_root,
            instance: self.instance,
        }
    }
}

impl Clone for Asked {
    fn clone(&self) -> (r: Self)
        ensures
            r@ == self@,
    {
        Asked {
            args: run::copy_all(&self.args),
            env: root::copy_env(&self.env),
            restart: self.restart,
            interactive: self.interactive,
        }
    }
}

} // verus!
