//! What comes before a process is started: its dependencies, one after the other.
use crate::protocol::{DependencyArg, Response};
use crate::psyfile::{Psyfile, UnitView};
use crate::root::run;
use crate::root::{RootView, SharedRoot};
use crate::text;
use crate::time::Duration;
use vstd::prelude::*;

verus! {

/// How far the dependencies of a process have come.
#[verifier::ext_equal]
pub ghost struct Progress {
    /// Those that are left, in order.
    pub rest: Seq<Seq<char>>,
    /// Whether the first of them has been started already.
    pub begun: bool,
    /// Whether they are started where they are not running.
    pub starts: bool,
}

/// What to do next.
pub ghost enum Action {
    /// Start a dependency.
    Run(Seq<char>),
    /// Wait for a dependency to become ready.
    Wait(Seq<char>, Duration),
    /// Start the process itself.
    Go,
}

/// Whether the first dependency that is left has to be started.
pub open spec fn to_start(
    r: RootView,
    units: Map<Seq<char>, UnitView>,
    p: Progress,
) -> bool {
    p.starts && !p.begun && !run::dep_runs(r, units, p.rest[0])
}

/// The dependencies after those for which nothing has to be done have been passed.
pub open spec fn settled(
    r: RootView,
    units: Map<Seq<char>, UnitView>,
    p: Progress,
) -> Progress
    decreases p.rest.len(),
{
    if p.rest.len() == 0 || to_start(r, units, p) || run::wait_for_ready(r, p.rest[0]) is Some {
        p
    } else {
        settled(r, units, Progress { rest: p.rest.skip(1), begun: false, ..p })
    }
}

/// What to do where nothing can be passed.
pub open spec fn action(r: RootView, units: Map<Seq<char>, UnitView>, p: Progress) -> Action {
    if p.rest.len() == 0 {
        Action::Go
    } else if to_start(r, units, p) {
        Action::Run(p.rest[0])
    } else {
        match run::wait_for_ready(r, p.rest[0]) {
            Some(d) => Action::Wait(p.rest[0], d),
            None => Action::Go,
        }
    }
}

/// The next step towards a process that has dependencies.
#[derive(Debug)]
pub enum StartStep {
    Run(String),
    Wait(String, Duration),
    Go,
}

impl StartStep {
    /// What the step does.
    pub open spec fn acts(self) -> Action {
        match self {
            StartStep::Run(n) => Action::Run(n@),
            StartStep::Wait(n, d) => Action::Wait(n@, d),
            StartStep::Go => Action::Go,
        }
    }
}

/// The dependencies of a process that is about to be started.
#[derive(Debug)]
pub struct Start {
    rest: Vec<String>,
    begun: bool,
    starts: bool,
}

impl View for Start {
    type V = Progress;

    closed spec fn view(&self) -> Progress {
        Progress { rest: text::texts(self.rest@), begun: self.begun, starts: self.starts }
    }
}

/// The names of some dependencies.
pub open spec fn dependency_names(s: Seq<DependencyArg>) -> Seq<Seq<char>> {
    s.map_values(|d: DependencyArg| d.name@)
}

impl Start {
    /// The dependencies of a unit, in the order in which they are started.
    pub fn unit(order: Vec<String>) -> (r: Start)
        ensures
            r@ == (Progress { rest: text::texts(order@), begun: false, starts: true }),
    {
        Start { rest: order, begun: false, starts: true }
    }

    /// The dependencies of a process with a command of its own. They are waited for,
    /// but not started.
    pub fn adhoc(deps: &Vec<DependencyArg>) -> (r: Start)
        ensures
            r@ == (Progress { rest: dependency_names(deps@), begun: false, starts: false }),
    {
        let mut rest: Vec<String> = Vec::new();
        let mut i: usize = 0;
        while i < deps.len()
            invariant
                i <= deps.len(),
                rest@.len() == i,
                forall|j: int| 0 <= j < i ==> (#[trigger] rest@[j])@ == deps@[j].name@,
            decreases deps.len() - i,
        {
            rest.push(text::copy(deps[i].name.as_str()));
            i += 1;
        }
        proof {
            assert(text::texts(rest@) =~= dependency_names(deps@));
        }
        Start { rest, begun: false, starts: false }
    }

    /// Passes the dependencies for which nothing has to be done, and tells what comes
    /// next.
    pub fn next(&mut self, root: &SharedRoot, psyfile: &Result<Option<Psyfile>, String>) -> (r:
        StartStep)
        ensures
            final(self)@ == settled(root@, run::loaded_units(*psyfile), old(self)@),
            r.acts() == action(root@, run::loaded_units(*psyfile), final(self)@),
    {
        let ghost units = run::loaded_units(*psyfile);
        let ghost before = self@;
        while self.rest.len() > 0
            invariant
                before == old(self)@,
                units == run::loaded_units(*psyfile),
                settled(root@, units, self@) == settled(root@, units, before),
            decreases self.rest.len(),
        {
            let name = text::copy(self.rest[0].as_str());
            proof {
                assert(self@.rest[0] == name@);
            }
            if self.starts && !self.begun {
                let running = match psyfile {
                    Ok(Some(p)) => root.dependency_running(p, name.as_str()),
                    _ => false,
                };
                if !running {
                    return StartStep::Run(name);
                }
            }
            if let Some(d) = root.ready_wait(name.as_str()) {
                return StartStep::Wait(name, d);
            }
            let ghost was = self@;
            let _ = self.rest.remove(0);
            self.begun = false;
            proof {
                assert(self@ =~= Progress { rest: was.rest.skip(1), begun: false, ..was });
            }
        }
        StartStep::Go
    }

    /// Notes the answer to a request to start the first dependency that is left. The
    /// result is the answer where that failed.
    pub fn started(&mut self, id: &str, answer: &Response) -> (r: Option<Response>)
        requires
            old(self)@.rest.len() > 0,
        ensures
            final(self)@ == (Progress { begun: true, ..old(self)@ }),
            if answer.ok {
                r is None
            } else {
                r matches Some(a) && crate::root::is_error(
                    a,
                    id@,
                    run::dependency_failure(old(self)@.rest[0], *answer),
                )
            },
    {
        let ghost before = self@;
        proof {
            assert(self@.rest[0] == self.rest@[0]@);
        }
        self.begun = true;
        proof {
            assert(self@ =~= Progress { begun: true, ..before });
        }
        if answer.ok {
            None
        } else {
            Some(run::dependency_failed(id, self.rest[0].as_str(), answer))
        }
    }

    /// Notes whether the first dependency that is left became ready in time. The
    /// result is the answer where it did not.
    pub fn waited(&mut self, id: &str, ready: bool) -> (r: Option<Response>)
        requires
            old(self)@.rest.len() > 0,
        ensures
            final(self)@ == (Progress { rest: old(self)@.rest.skip(1), begun: false, ..old(self)@ }),
            if ready {
                r is None
            } else {
                r matches Some(a) && crate::root::is_error(
                    a,
                    id@,
                    "dependency '"@ + old(self)@.rest[0] + "' readiness probe timed out"@,
                )
            },
    {
        let ghost before = self@;
        proof {
            assert(self@.rest[0] == self.rest@[0]@);
        }
        let name = self.rest.remove(0);
        self.begun = false;
        proof {
            assert(self@ =~= Progress { rest: before.rest.skip(1), begun: false, ..before });
        }
        if ready {
            None
        } else {
            Some(run::dependency_timed_out(id, name.as_str()))
        }
    }
}

/// A process is started only when each dependency that is left is running, where it
/// is one to be started, and none of them has to be waited for.
pub proof fn lemma_go(r: RootView, units: Map<Seq<char>, UnitView>, p: Progress)
    requires
        action(r, units, settled(r, units, p)) == Action::Go,
    ensures
        forall|i: int|
            0 <= i < p.rest.len() ==> run::wait_for_ready(r, #[trigger] p.rest[i]) is None,
        forall|i: int|
            0 <= i < p.rest.len() && p.starts && !(i == 0 && p.begun) ==> run::dep_runs(
                r,
                units,
                #[trigger] p.rest[i],
            ),
    decreases p.rest.len(),
{
    if p.rest.len() > 0 {
        let q = Progress { rest: p.rest.skip(1), begun: false, ..p };
        lemma_go(r, units, q);
        assert forall|i: int| 0 < i < p.rest.len() implies #[trigger] p.rest[i] == q.rest[i - 1] by {}
    }
}

/// A dependency is started only where it is not running, and the one that is started
/// or waited for is the first for which something has to be done: nothing has to be
/// done for those before it.
pub proof fn lemma_next(r: RootView, units: Map<Seq<char>, UnitView>, p: Progress)
    ensures
        action(r, units, settled(r, units, p)) matches Action::Run(n) ==> p.starts
            && !run::dep_runs(r, units, n),
        exists|k: int|
            0 <= k <= p.rest.len() && #[trigger] p.rest.skip(k) == settled(r, units, p).rest && (
            forall|i: int| 0 <= i < k ==> run::wait_for_ready(r, #[trigger] p.rest[i]) is None),
    decreases p.rest.len(),
{
    if p.rest.len() == 0 || to_start(r, units, p) || run::wait_for_ready(r, p.rest[0]) is Some {
        assert(p.rest.skip(0) =~= p.rest);
    } else {
        let q = Progress { rest: p.rest.skip(1), begun: false, ..p };
        lemma_next(r, units, q);
        let k = choose|k: int|
            0 <= k <= q.rest.len() && #[trigger] q.rest.skip(k) == settled(r, units, q).rest && (
            forall|i: int| 0 <= i < k ==> run::wait_for_ready(r, #[trigger] q.rest[i]) is None);
        assert(p.rest.skip(k + 1) =~= q.rest.skip(k));
        assert forall|i: int| 0 <= i < k + 1 implies run::wait_for_ready(
            r,
            #[trigger] p.rest[i],
        ) is None by {
            if i > 0 {
                assert(q.rest[i - 1] == p.rest[i]);
            }
        }
    }
}

} // verus!
