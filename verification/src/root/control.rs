//! Stopping, restarting, forgetting: what requests about known processes lead to.
use crate::json;
use crate::json::{Js, Json};
use crate::names::NameMap;
use crate::process;
use crate::process::{EntryView, ProcessEntry, ProcessState};
use crate::protocol::{Response, RestartArgs, StopArgs};
use crate::psyfile;
use crate::psyfile::Psyfile;
use crate::root;
use crate::root::again;
use crate::root::{RootView, SharedRoot};
use crate::root::query;
use crate::root::run;
use crate::root::run::{SpawnRequest, SpawnView};
use crate::text;
use vstd::prelude::*;

verus! {

// ---------------------------------------------------------------------------
// Stopping
// ---------------------------------------------------------------------------

/// A process that is being stopped on purpose.
pub open spec fn stopped_on_purpose(e: EntryView) -> EntryView {
    EntryView { stopping: true, ..e }
}

/// Whether a process is a running instance of a template.
pub open spec fn running_instance(r: RootView, template: Seq<char>, name: Seq<char>) -> bool {
    root::runs(r, name) && run::is_instance(template, name)
}

/// A root in which the running instances of a template, of those with the given
/// names, are being stopped.
pub open spec fn stop_instances(
    r: RootView,
    names: Seq<Seq<char>>,
    template: Seq<char>,
) -> RootView
    decreases names.len(),
{
    if names.len() == 0 {
        r
    } else {
        let before = stop_instances(r, names.drop_last(), template);
        if running_instance(r, template, names.last()) {
            root::with_entry(before, names.last(), stopped_on_purpose(r.table[names.last()]))
        } else {
            before
        }
    }
}

/// The running instances of a template, of those with the given names.
pub open spec fn instances_running(
    r: RootView,
    names: Seq<Seq<char>>,
    template: Seq<char>,
) -> Seq<Seq<char>>
    decreases names.len(),
{
    if names.len() == 0 {
        Seq::empty()
    } else {
        let before = instances_running(r, names.drop_last(), template);
        if running_instance(r, template, names.last()) {
            before.push(names.last())
        } else {
            before
        }
    }
}

/// The process ids of some processes, of those that have one.
pub open spec fn pids_of(r: RootView, names: Seq<Seq<char>>) -> Seq<u32>
    decreases names.len(),
{
    if names.len() == 0 {
        Seq::empty()
    } else {
        let before = pids_of(r, names.drop_last());
        match r.table[names.last()].pid {
            Some(p) => before.push(p),
            None => before,
        }
    }
}

/// The answer once the instances of a template have been dealt with.
pub open spec fn instances_json(name: Seq<char>, status: Seq<char>, n: nat) -> Js {
    json::object_of(
        seq![
            ("name"@, Js::Text(name)),
            ("status"@, Js::Text(status)),
            ("instances"@, Js::Unsigned(n as u64)),
        ],
    )
}

fn instances_value(name: &str, status: &str, n: usize) -> (r: Json)
    ensures
        json::model(r) == instances_json(name@, status@, n as nat),
{
    let mut e: Vec<(String, Json)> = Vec::new();
    e.push(json::entry("name", json::string(name)));
    e.push(json::entry("status", json::string(status)));
    e.push(json::entry("instances", Json::Unsigned(n as u64)));
    proof {
        assert(json::entry_models(e@) =~= seq![
            ("name"@, Js::Text(name@)),
            ("status"@, Js::Text(status@)),
            ("instances"@, Js::Unsigned(n as u64)),
        ]);
    }
    json::object(e)
}

/// What a request to stop a process leads to: a refusal, or processes to kill, the
/// answer once they are gone, and a root that knows about it.
pub ghost enum StopDecision {
    Refuse(Seq<char>),
    Kill { pids: Seq<u32>, answer: Js, after: RootView },
}

/// What a request to stop a process leads to.
pub open spec fn stop_decision(
    r: RootView,
    names: Seq<Seq<char>>,
    args: Option<StopArgs>,
    psyfile: Result<Option<Psyfile>, String>,
) -> StopDecision {
    match args {
        None => StopDecision::Refuse("invalid or missing stop args"@),
        Some(a) => if a.name@ == "main"@ {
            StopDecision::Refuse("cannot stop the main process (use 'down' instead)"@)
        } else if query::names_template(psyfile, a.name@) {
            let hit = instances_running(r, names, a.name@);
            StopDecision::Kill {
                pids: pids_of(r, hit),
                answer: instances_json(a.name@, "stopped"@, hit.len()),
                after: stop_instances(r, names, a.name@),
            }
        } else if root::runs(r, a.name@) {
            StopDecision::Kill {
                pids: pids_of(r, seq![a.name@]),
                answer: root::status_json(a.name@, "stopped"@),
                after: root::with_entry(r, a.name@, stopped_on_purpose(r.table[a.name@])),
            }
        } else if r.table.dom().contains(a.name@) {
            StopDecision::Refuse(root::not_running(a.name@))
        } else {
            StopDecision::Refuse(root::not_found(a.name@))
        },
    }
}

/// The step that a request to stop a process leads to.
#[derive(Debug)]
pub enum StopStep {
    Answer(Response),
    /// Kill these processes, then give this answer.
    Kill(Vec<u32>, Response),
}

impl SharedRoot {
    /// Marks the process at a position as being stopped on purpose.
    fn mark_stopping(&mut self, i: usize)
        requires
            i < old(self).names().len(),
        ensures
            final(self)@ == root::with_entry(
                old(self)@,
                old(self).names()[i as int],
                stopped_on_purpose(old(self)@.table[old(self).names()[i as int]]),
            ),
            final(self).names() == old(self).names(),
    {
        let ghost before = self@;
        let ghost names = self.names();
        let (k, mut e) = self.take(i);
        let ghost was = e@;
        e.stopping = true;
        proof {
            assert(e@ =~= stopped_on_purpose(was));
            root::lemma_put_back(before, k@, e@);
            root::lemma_order_kept(names, i as int);
        }
        self.put(i, k, e);
    }

    fn stop_template(&mut self, name: &str) -> (r: (Vec<u32>, usize))
        ensures
            r.0@ == pids_of(old(self)@, instances_running(old(self)@, old(self).names(), name@)),
            r.1 == instances_running(old(self)@, old(self).names(), name@).len(),
            final(self)@ == stop_instances(old(self)@, old(self).names(), name@),
            final(self).names() == old(self).names(),
    {
        let ghost start = self@;
        let ghost names = self.names();
        let prefix = text::concat2(name, ".");
        let n = self.process_count();
        let mut pids: Vec<u32> = Vec::new();
        let mut count: usize = 0;
        let mut i: usize = 0;
        proof {
            self.lemma_names();
            assert forall|j: int| 0 <= j < n implies start.table.dom().contains(
                #[trigger] names[j],
            ) by {
                assert(names.contains(names[j]));
            }
        }
        while i < n
            invariant
                i <= n,
                n == names.len(),
                names.no_duplicates(),
                names == self.names(),
                prefix@ == name@ + "."@,
                count <= i,
                pids@ == pids_of(start, instances_running(start, names.take(i as int), name@)),
                count == instances_running(start, names.take(i as int), name@).len(),
                self@ == stop_instances(start, names.take(i as int), name@),
                forall|j: int|
                    i <= j < n ==> start.table.dom().contains(#[trigger] names[j])
                        && self@.table[names[j]] == start.table[names[j]],
            decreases n - i,
        {
            let ghost shorter = names.take(i as int);
            let ghost longer = names.take(i + 1);
            proof {
                assert(longer.drop_last() =~= shorter);
                assert(longer.last() == names[i as int]);
            }
            let e = self.nth(i);
            let pid = e.pid;
            let running = e.state == ProcessState::Running;
            let instance = text::begins(self.nth_name(i).as_str(), prefix.as_str());
            if running && instance {
                proof {
                    let hit = instances_running(start, shorter, name@);
                    assert(hit.push(names[i as int]).drop_last() =~= hit);
                }
                self.mark_stopping(i);
                count += 1;
                match pid {
                    Some(p) => pids.push(p),
                    None => {},
                }
            }
            i += 1;
        }
        proof {
            assert(names.take(n as int) =~= names);
        }
        (pids, count)
    }

    /// Decides what a request to stop a process leads to.
    pub fn begin_stop(
        &mut self,
        id: &str,
        args: &Option<StopArgs>,
        psyfile: &Result<Option<Psyfile>, String>,
    ) -> (r: StopStep)
        ensures
            match stop_decision(old(self)@, old(self).names(), *args, *psyfile) {
                StopDecision::Refuse(m) => r matches StopStep::Answer(a) && root::is_error(
                    a,
                    id@,
                    m,
                ) && final(self)@ == old(self)@,
                StopDecision::Kill { pids, answer, after } => r matches StopStep::Kill(p, a)
                    && p@ == pids && root::is_success(a, id@, answer) && final(self)@ == after,
            },
            final(self).names() == old(self).names(),
    {
        let ghost before = self@;
        let a = match args {
            Some(a) => a,
            None => {
                return StopStep::Answer(Response::err(id, "invalid or missing stop args"));
            },
        };
        let name = a.name.as_str();
        if text::same(name, "main") {
            return StopStep::Answer(
                Response::err(id, "cannot stop the main process (use 'down' instead)"),
            );
        }
        if query::is_template(psyfile, name) {
            let (pids, count) = self.stop_template(name);
            let data = instances_value(name, "stopped", count);
            return StopStep::Kill(pids, Response::ok(id, Some(data)));
        }
        match self.find(name) {
            Some(i) => {
                let e = self.nth(i);
                if e.state != ProcessState::Running {
                    let m = text::concat3("process '", name, "' is not running");
                    return StopStep::Answer(Response::err(id, m.as_str()));
                }
                let mut pids: Vec<u32> = Vec::new();
                match e.pid {
                    Some(p) => pids.push(p),
                    None => {},
                }
                proof {
                    assert(seq![name@].drop_last() =~= Seq::<Seq<char>>::empty());
                    assert(pids_of(before, seq![name@].drop_last()) =~= Seq::<u32>::empty());
                    assert(pids@ =~= pids_of(before, seq![name@]));
                }
                self.mark_stopping(i);
                StopStep::Kill(pids, Response::ok(id, Some(root::status_value(name, "stopped"))))
            },
            None => {
                let m = text::concat3("process '", name, "' not found");
                StopStep::Answer(Response::err(id, m.as_str()))
            },
        }
    }
}

// ---------------------------------------------------------------------------
// Restarting
// ---------------------------------------------------------------------------

/// The position of the last dot of a name, or -1.
pub open spec fn last_dot(s: Seq<char>) -> int
    decreases s.len(),
{
    if s.len() == 0 {
        -1
    } else if s.last() == '.' {
        s.len() - 1
    } else {
        last_dot(s.drop_last())
    }
}

/// The unit that a process comes from: its name up to the last dot.
pub open spec fn unit_name_of(s: Seq<char>) -> Seq<char> {
    if last_dot(s) < 0 {
        s
    } else {
        s.take(last_dot(s))
    }
}

/// The name of the unit that a process comes from.
pub fn unit_name(name: &str) -> (r: String)
    ensures
        r@ == unit_name_of(name@),
{
    let s = text::chars_of(name);
    let mut i: usize = s.len();
    proof {
        assert(s@.take(s@.len() as int) =~= s@);
    }
    while i > 0
        invariant
            i <= s.len(),
            s@ == name@,
            last_dot(s@.take(i as int)) == last_dot(name@),
        decreases i,
    {
        proof {
            assert(s@.take(i as int).last() == s@[i - 1]);
            assert(s@.take(i as int).drop_last() =~= s@.take(i - 1));
        }
        if s[i - 1] == '.' {
            let base = text::part(&s, 0, i - 1);
            proof {
                assert(base@ =~= s@.take(i - 1));
            }
            return text::string_of(&base);
        }
        i -= 1;
    }
    text::copy(name)
}

/// The instances of a template, of those with the given names.
pub open spec fn instances_of(names: Seq<Seq<char>>, template: Seq<char>) -> Seq<Seq<char>>
    decreases names.len(),
{
    if names.len() == 0 {
        Seq::empty()
    } else {
        let before = instances_of(names.drop_last(), template);
        if run::is_instance(template, names.last()) {
            before.push(names.last())
        } else {
            before
        }
    }
}

/// What a request to restart a process leads to: a refusal, instances to restart
/// one by one, or a process to stop and start again.
pub ghost enum RestartDecision {
    Refuse(Seq<char>),
    Each(Seq<Seq<char>>),
    One { pid: Option<u32>, again: SpawnView, after: RootView },
}

/// What a request to restart a process leads to.
pub open spec fn restart_decision(
    r: RootView,
    names: Seq<Seq<char>>,
    args: Option<RestartArgs>,
    psyfile: Result<Option<Psyfile>, String>,
    host: Map<Seq<char>, Seq<char>>,
) -> RestartDecision {
    match args {
        None => RestartDecision::Refuse("invalid or missing restart args"@),
        Some(a) => if query::names_template(psyfile, a.name@) {
            RestartDecision::Each(instances_of(names, a.name@))
        } else if !r.table.dom().contains(a.name@) {
            RestartDecision::Refuse(root::not_found(a.name@))
        } else {
            RestartDecision::One {
                pid: r.table[a.name@].pid,
                again: match run::unit_named(psyfile, unit_name_of(a.name@)) {
                    Some(u) => again::unit_again(r, r.table[a.name@], u, a.name@, host),
                    None => again::same_again(r.table[a.name@], a.name@),
                },
                after: root::with_entry(r, a.name@, stopped_on_purpose(r.table[a.name@])),
            }
        },
    }
}

/// The step that a request to restart a process leads to.
#[derive(Debug)]
pub enum RestartStep {
    Answer(Response),
    /// Restart these processes one by one, then give this answer.
    Each(Vec<String>, Response),
    /// Stop this process where it has an id, then start this one.
    One(Option<u32>, SpawnRequest),
}

impl SharedRoot {
    fn list_instances(&self, name: &str) -> (r: Vec<String>)
        ensures
            text::texts(r@) == instances_of(self.names(), name@),
    {
        let prefix = text::concat2(name, ".");
        let n = self.process_count();
        let mut out: Vec<String> = Vec::new();
        let mut i: usize = 0;
        proof {
            assert(text::texts(out@) =~= instances_of(self.names().take(0), name@));
        }
        while i < n
            invariant
                i <= n,
                n == self.names().len(),
                prefix@ == name@ + "."@,
                text::texts(out@) == instances_of(self.names().take(i as int), name@),
            decreases n - i,
        {
            proof {
                assert(self.names().take(i + 1).drop_last() =~= self.names().take(i as int));
                assert(self.names().take(i + 1).last() == self.names()[i as int]);
            }
            let k = self.nth_name(i);
            if text::begins(k.as_str(), prefix.as_str()) {
                let ghost before = out@;
                out.push(text::copy(k.as_str()));
                proof {
                    assert(text::texts(out@) =~= text::texts(before).push(k@));
                }
            }
            i += 1;
        }
        proof {
            assert(self.names().take(n as int) =~= self.names());
        }
        out
    }

    /// Decides what a request to restart a process leads to. `host` is the
    /// environment of the root itself. The process to start has the ports that it
    /// had; it is given others where these have been taken.
    pub fn begin_restart(
        &mut self,
        id: &str,
        args: &Option<RestartArgs>,
        psyfile: &Result<Option<Psyfile>, String>,
        host: &NameMap<String>,
    ) -> (r: RestartStep)
        ensures
            match restart_decision(
                old(self)@,
                old(self).names(),
                *args,
                *psyfile,
                psyfile::env_view(*host),
            ) {
                RestartDecision::Refuse(m) => r matches RestartStep::Answer(a) && root::is_error(
                    a,
                    id@,
                    m,
                ) && final(self)@ == old(self)@,
                RestartDecision::Each(names) => r matches RestartStep::Each(n, a) && text::texts(
                    n@,
                ) == names && root::is_success(
                    a,
                    id@,
                    instances_json(args->0.name@, "restarted"@, names.len()),
                ) && final(self)@ == old(self)@,
                RestartDecision::One { pid, again, after } => r matches RestartStep::One(p, s)
                    && p == pid && s@ == again && final(self)@ == after,
            },
            final(self).names() == old(self).names(),
    {
        let ghost before = self@;
        let a = match args {
            Some(a) => a,
            None => {
                return RestartStep::Answer(Response::err(id, "invalid or missing restart args"));
            },
        };
        let name = a.name.as_str();
        if query::is_template(psyfile, name) {
            let all = self.list_instances(name);
            proof {
                assert(text::texts(all@).len() == all@.len());
            }
            let data = instances_value(name, "restarted", all.len());
            return RestartStep::Each(all, Response::ok(id, Some(data)));
        }
        match self.find(name) {
            Some(i) => {
                let e = self.nth(i);
                let pid = e.pid;
                let unit = unit_name(name);
                let found = match psyfile {
                    Ok(Some(p)) => p.units.get(unit.as_str()),
                    _ => None,
                };
                let request = match found {
                    Some(u) => self.repeat_unit(e, u, name, host),
                    None => again::repeat(e, name),
                };
                self.mark_stopping(i);
                RestartStep::One(pid, request)
            },
            None => {
                let m = text::concat3("process '", name, "' not found");
                RestartStep::Answer(Response::err(id, m.as_str()))
            },
        }
    }

    /// Makes room for a process to start again. What ran under its name leaves the
    /// table and hands its past runs on.
    pub fn prepare_restart(&mut self, s: SpawnRequest) -> (e: ProcessEntry)
        requires
            old(self)@.table.dom().contains(s.name@) ==> old(
                self,
            )@.table[s.name@].current_run_id < u32::MAX,
        ensures
            e@ == run::prepared_entry(old(self)@, s@),
            final(self)@ == run::without_entry(old(self)@, s.name@),
    {
        let ghost before = self@;
        let ghost sv = s@;
        match self.find(s.name.as_str()) {
            Some(i) => {
                let (k, mut was) = self.take(i);
                let ghost old_entry = was@;
                was.archive_current_run();
                let mut e = run::build_entry(s);
                e.current_run_id = was.current_run_id;
                e.run_history = was.run_history;
                proof {
                    assert(e@ =~= run::succeeding_entry(sv, old_entry));
                }
                e
            },
            None => {
                proof {
                    assert(before.table.remove(sv.name) =~= before.table);
                }
                run::build_entry(s)
            },
        }
    }
}

/// The answer where a process could not be started again. Its entry is gone.
pub fn restart_failed(id: &str, error: &str) -> (r: Response)
    ensures
        root::is_error(r, id@, "restart spawn failed: "@ + error@),
{
    let m = text::concat2("restart spawn failed: ", error);
    Response::err(id, m.as_str())
}

// ---------------------------------------------------------------------------
// Shutting down and cleaning up
// ---------------------------------------------------------------------------

/// The running processes, of those with the given names.
pub open spec fn running_of(r: RootView, names: Seq<Seq<char>>) -> Seq<Seq<char>>
    decreases names.len(),
{
    if names.len() == 0 {
        Seq::empty()
    } else if root::runs(r, names.last()) {
        running_of(r, names.drop_last()).push(names.last())
    } else {
        running_of(r, names.drop_last())
    }
}

/// A root in which only running processes are left.
pub open spec fn only_running(r: RootView) -> RootView {
    RootView {
        table: r.table.restrict(
            Set::new(|k: Seq<char>| root::runs(r, k)),
        ),
        ..r
    }
}

/// The answer to a request to clean up.
pub open spec fn removed_json(n: nat) -> Js {
    json::object_of(seq![("removed"@, Js::Unsigned(n as u64))])
}

impl SharedRoot {
    /// Begins to shut down: no more processes are started, and these are to be
    /// killed, the newest first.
    pub fn begin_teardown(&mut self) -> (r: Vec<(String, Option<u32>)>)
        ensures
            final(self)@ == (RootView { shutting_down: true, ..old(self)@ }),
            r@.len() == running_of(old(self)@, old(self).names()).len(),
            forall|i: int|
                0 <= i < r@.len() ==> {
                    let name = running_of(old(self)@, old(self).names())[r@.len() - 1 - i];
                    (#[trigger] r@[i]).0@ == name && r@[i].1 == old(self)@.table[name].pid
                },
    {
        let ghost start = self@;
        let ghost names = self.names();
        let n = self.process_count();
        let mut out: Vec<(String, Option<u32>)> = Vec::new();
        let mut i: usize = n;
        proof {
            assert(names.take(n as int) =~= names);
        }
        let ghost all = running_of(start, names);
        while i > 0
            invariant
                i <= n,
                n == names.len(),
                names == self.names(),
                start == self@,
                all == running_of(start, names),
                out@.len() + running_of(start, names.take(i as int)).len() == all.len(),
                running_of(start, names.take(i as int)) == all.take(all.len() - out@.len()),
                forall|j: int|
                    0 <= j < out@.len() ==> (#[trigger] out@[j]).0@ == all[all.len() - 1 - j]
                        && out@[j].1 == start.table[all[all.len() - 1 - j]].pid,
            decreases i,
        {
            i -= 1;
            let ghost longer = names.take(i + 1);
            proof {
                assert(longer.drop_last() =~= names.take(i as int));
                assert(longer.last() == names[i as int]);
            }
            let e = self.nth(i);
            if e.state == ProcessState::Running {
                let ghost m = all.len() - out@.len();
                proof {
                    assert(running_of(start, longer).last() == names[i as int]);
                    assert(all.take(m).last() == all[m - 1]);
                    assert(running_of(start, longer).drop_last() =~= running_of(
                        start,
                        names.take(i as int),
                    ));
                    assert(all.take(m).drop_last() =~= all.take(m - 1));
                }
                let k = text::copy(self.nth_name(i).as_str());
                out.push((k, e.pid));
            }
        }
        proof {
            assert(running_of(start, names.take(0)).len() == 0);
        }
        self.shutting_down = true;
        out
    }

    /// Answers a request to shut down.
    pub fn down_answer(id: &str) -> (r: Response)
        ensures
            root::is_success(
                r,
                id@,
                json::object_of(seq![("status"@, Js::Text("shutdown"@))]),
            ),
    {
        let mut e: Vec<(String, Json)> = Vec::new();
        e.push(json::entry("status", json::string("shutdown")));
        proof {
            assert(json::entry_models(e@) =~= seq![("status"@, Js::Text("shutdown"@))]);
        }
        Response::ok(id, Some(json::object(e)))
    }

    /// Forgets the processes that have ended, and says how many there were.
    pub fn handle_clean(&mut self, id: &str) -> (r: Response)
        ensures
            final(self)@ == only_running(old(self)@),
            final(self).names() == running_of(old(self)@, old(self).names()),
            root::is_success(
                r,
                id@,
                removed_json(
                    (old(self).names().len() - running_of(old(self)@, old(self).names()).len()) as nat,
                ),
            ),
    {
        let ghost start = self@;
        let ghost names = self.names();
        let n = self.process_count();
        let mut i: usize = 0;
        let mut removed: u64 = 0;
        proof {
            self.lemma_names();
            assert(names.skip(0) =~= names);
            assert(running_of(start, names.take(0)) + names =~= names);
        }
        let mut left: usize = n;
        while left > 0
            invariant
                left <= n,
                n == names.len(),
                names.no_duplicates(),
                i + removed + left == n,
                forall|k: Seq<char>| #[trigger]
                    start.table.dom().contains(k) <==> names.contains(k),
                i == running_of(start, names.take(n - left)).len(),
                self.names() == running_of(start, names.take(n - left)) + names.skip(n - left),
                self@ == (RootView { table: self@.table, ..start }),
                forall|k: Seq<char>| #[trigger]
                    self@.table.dom().contains(k) <==> (start.table.dom().contains(k) && (
                    root::runs(start, k) || names.skip(n - left).contains(k))),
                forall|k: Seq<char>| #[trigger]
                    self@.table.dom().contains(k) ==> self@.table[k] == start.table[k],
            decreases left,
        {
            let ghost done = (n - left) as int;
            let ghost name = names[done];
            proof {
                let kept = running_of(start, names.take(done));
                assert(self.names()[i as int] == names.skip(done)[0]);
                assert(names.take(done + 1).drop_last() =~= names.take(done));
                assert(names.take(done + 1).last() == name);
                assert forall|k: Seq<char>|
                    names.skip(done).contains(k) <==> (k == name || names.skip(
                        done + 1,
                    ).contains(k)) by {
                    if names.skip(done).contains(k) && k != name {
                        let j = names.skip(done).index_of(k);
                        assert(names.skip(done)[j] == k);
                        assert(names.skip(done + 1)[j - 1] == k);
                    }
                    if names.skip(done + 1).contains(k) {
                        let j = names.skip(done + 1).index_of(k);
                        assert(names.skip(done + 1)[j] == k);
                        assert(names.skip(done)[j + 1] == k);
                    }
                    assert(names.skip(done)[0] == name);
                }
                assert(!names.skip(done + 1).contains(name)) by {
                    if names.skip(done + 1).contains(name) {
                        let j = names.skip(done + 1).index_of(name);
                        assert(names[done + 1 + j] == name);
                    }
                }
                assert(names.contains(name));
            }
            if self.nth(i).state == ProcessState::Running {
                proof {
                    let kept = running_of(start, names.take(done));
                    assert(kept + names.skip(done) =~= kept.push(name) + names.skip(done + 1));
                }
                i += 1;
            } else {
                let gone = self.take(i);
                removed += 1;
                proof {
                    let kept = running_of(start, names.take(done));
                    assert((kept + names.skip(done)).remove(i as int) =~= kept + names.skip(
                        done + 1,
                    ));
                }
            }
            left -= 1;
        }
        proof {
            assert(names.take(n as int) =~= names);
            assert(names.skip(n as int) =~= Seq::<Seq<char>>::empty());
            let kept = running_of(start, names);
            assert(kept + Seq::<Seq<char>>::empty() =~= kept);
            assert(self@.table =~= only_running(start).table);
        }
        let mut e: Vec<(String, Json)> = Vec::new();
        e.push(json::entry("removed", Json::Unsigned(removed)));
        proof {
            assert(json::entry_models(e@) =~= seq![("removed"@, Js::Unsigned(removed))]);
        }
        Response::ok(id, Some(json::object(e)))
    }
}

/// Cleaning up forgets exactly the processes that are not running, and changes
/// nothing else.
pub proof fn lemma_clean(r: RootView, name: Seq<char>)
    ensures
        only_running(r).table.dom().contains(name) <==> root::runs(r, name),
        root::runs(r, name) ==> only_running(r).table[name] == r.table[name],
        root::consistent(r) ==> root::consistent(only_running(r)),
        only_running(only_running(r)) == only_running(r),
{
    assert(only_running(only_running(r)).table =~= only_running(r).table);
}

} // verus!
