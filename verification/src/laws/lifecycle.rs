//! How processes end, restart, are stopped and are forgotten.
use crate::api::{ErrorView, ExitStatus, PsyError};
use crate::json;
use crate::json::Js;
use crate::laws::fields;
use crate::names::NameMap;
use crate::process;
use crate::process::{ProcessEntry, ProcessState};
use crate::protocol::{RegisterSubrootArgs, Request, Response, RestartArgs, RestartPolicy, StopArgs};
use crate::psyfile::Psyfile;
use crate::root;
use crate::root::control;
use crate::root::control::{RestartStep, StopStep};
use crate::root::life::{ExitInfo, ExitStep};
use crate::root::query;
use crate::root::run;
use crate::root::run::SpawnRequest;
use crate::root::serve;
use crate::root::serve::{Ending, Route};
use crate::root::SharedRoot;
use crate::text;
use crate::time::{Duration, Timestamp};
use vstd::prelude::*;

verus! {

// ---------------------------------------------------------------------------
// Exit and restart
// ---------------------------------------------------------------------------

/// A process that exits is noted with its code and the time, and runs no longer. It counts
/// as stopped if and only if it was asked to stop or ended with 0; any other end is a
/// failure. A signal is noted where it left no code.
pub proof fn lemma_exit_is_noted(e: &mut ProcessEntry, x: ExitInfo, now: Timestamp)
    requires
        call_ensures(ProcessEntry::mark_exited, (e, x, now), ()),
    ensures
        final(e)@.exit_status == x.code,
        final(e)@.stopped_at == Some(now),
        final(e)@.pid is None,
        !final(e)@.stopping,
        final(e)@.state != ProcessState::Running,
        final(e)@.state == ProcessState::Stopped <==> old(e)@.stopping || x.code == Some(0i32),
        final(e)@.state == ProcessState::Failed <==> !old(e)@.stopping && x.code != Some(0i32),
        x.code is None && x.signal is Some ==> final(e)@.signal == Some(
            "SIG"@ + text::signed_decimal(x.signal->0 as int),
        ),
        x.signal is None ==> final(e)@.signal == old(e)@.signal,
        final(e)@.name == old(e)@.name,
        final(e)@.command == old(e)@.command,
        final(e)@.env == old(e)@.env,
        final(e)@.restart_policy == old(e)@.restart_policy,
        final(e)@.restarts == old(e)@.restarts,
        final(e)@.started_at == old(e)@.started_at,
        final(e)@.stdout == old(e)@.stdout,
        final(e)@.stderr == old(e)@.stderr,
        final(e)@.run_history == old(e)@.run_history,
        final(e)@.current_run_id == old(e)@.current_run_id,
        final(e)@.ports == old(e)@.ports,
        final(e)@.working_dir == old(e)@.working_dir,
        final(e)@.recipe == old(e)@.recipe,
        final(e)@.asked == old(e)@.asked,
        final(e)@.metadata == old(e)@.metadata,
{
}

/// A process that ends by itself is restarted as its policy says: never, always, or where
/// it did not end with 0; at most five times, and never while the root shuts down. The end
/// of the main process ends the root with its code, and the exit of an earlier run counts
/// for nothing.
pub proof fn lemma_restart_policy(
    root: &mut SharedRoot,
    name: &str,
    run_id: u32,
    x: ExitInfo,
    now: Timestamp,
    r: ExitStep,
)
    requires
        call_ensures(SharedRoot::on_exit, (root, name, run_id, x, now), r),
    ensures
        ({
            let known = old(root)@.table.dom().contains(name@) && old(
                root,
            )@.table[name@].current_run_id == run_id;
            let e = old(root)@.table[name@];
            let may = known && !e.is_main && !old(root)@.shutting_down && e.restarts < 5;
            &&& r is Ignore <==> !known
            &&& !known ==> final(root)@ == old(root)@
            &&& r is EndRoot <==> known && e.is_main
            &&& known && e.is_main && x.code is Some ==> r == ExitStep::EndRoot(x.code->0)
            &&& known && e.is_main && x.code is None ==> r == ExitStep::EndRoot(1)
            &&& may && e.restart_policy == RestartPolicy::Always ==> r is Restart
            &&& may && e.restart_policy == RestartPolicy::OnFailure ==> (r is Restart <==> x.code
                != Some(0i32))
            &&& e.restart_policy == RestartPolicy::No ==> !(r is Restart)
            &&& r is Restart ==> may
            &&& r is End <==> known && !e.is_main && !(r is Restart)
            &&& known ==> !root::runs(final(root)@, name@)
            &&& forall|k: Seq<char>|
                k != name@ ==> #[trigger] final(root)@.table[k] == old(root)@.table[k]
        }),
{
}

/// Before each restart the wait is twice as long as before the one before, from one second
/// up to sixteen.
pub proof fn lemma_backoff(n: u32, m: u32, r: Duration, s: Duration)
    requires
        call_ensures(process::calculate_backoff, (n,), r),
        call_ensures(process::calculate_backoff, (m,), s),
        m == n + 1,
    ensures
        n == 0 ==> r.secs == 1,
        1 <= r.secs <= 16,
        r.nanos == 0,
        r.secs <= 8 ==> s.secs == 2 * r.secs,
        r.secs == 16 ==> s.secs == 16,
        n >= 4 ==> r.secs == 16,
{
    reveal_with_fuel(process::backoff_secs, 6);
}

/// The wait before a restart is that of the restarts so far.
pub proof fn lemma_restart_waits(
    root: &mut SharedRoot,
    name: &str,
    run_id: u32,
    x: ExitInfo,
    now: Timestamp,
    d: Duration,
    b: Duration,
)
    requires
        call_ensures(SharedRoot::on_exit, (root, name, run_id, x, now), ExitStep::Restart(d)),
        call_ensures(process::calculate_backoff, (old(root)@.table[name@].restarts,), b),
    ensures
        d == b,
{
}

/// Whether a process restarts depends on its policy, its code and how often it has.
pub proof fn lemma_should_restart(e: ProcessEntry, code: Option<i32>, r: bool)
    requires
        call_ensures(process::should_restart, (&e, code), r),
    ensures
        e@.restarts >= 5 ==> !r,
        e@.restart_policy == RestartPolicy::No ==> !r,
        e@.restarts < 5 && e@.restart_policy == RestartPolicy::Always ==> r,
        e@.restarts < 5 && e@.restart_policy == RestartPolicy::OnFailure ==> (r <==> code != Some(
            0i32,
        )),
{
}

/// A process that could not be restarted has failed, and nothing else changes.
pub proof fn lemma_failed_respawn(root: &mut SharedRoot, name: &str)
    requires
        call_ensures(SharedRoot::fail_respawn, (root, name), ()),
    ensures
        old(root)@.table.dom().contains(name@) ==> final(root)@.table[name@].state
            == ProcessState::Failed,
        final(root)@.table.dom() == old(root)@.table.dom(),
        forall|k: Seq<char>|
            k != name@ ==> #[trigger] final(root)@.table[k] == old(root)@.table[k],
{
    assert(final(root)@.table.dom() =~= old(root)@.table.dom());
}

/// A child is waited for once, by the one who begins to wait for it.
pub proof fn lemma_child_is_waited_for_once(
    root: &mut SharedRoot,
    next: &mut SharedRoot,
    name: &str,
    id: u32,
    again: Option<u32>,
)
    requires
        call_ensures(SharedRoot::begin_wait, (root, name), Some(id)),
        old(next)@ == final(root)@,
        call_ensures(SharedRoot::begin_wait, (next, name), again),
    ensures
        root::runs(old(root)@, name@),
        id == old(root)@.table[name@].current_run_id,
        again is None,
{
}

// ---------------------------------------------------------------------------
// Stop
// ---------------------------------------------------------------------------

/// A request to stop a running process kills that process, marks it as stopped on purpose
/// so that its end is no failure, and leaves all others alone. The main process is not
/// stopped, nor one that does not run or is not known.
pub proof fn lemma_stop_kills_the_process(
    root: &mut SharedRoot,
    id: &str,
    a: StopArgs,
    psyfile: Result<Option<Psyfile>, String>,
    r: StopStep,
)
    requires
        call_ensures(SharedRoot::begin_stop, (root, id, &Some(a), &psyfile), r),
        !query::names_template(psyfile, a.name@),
    ensures
        r is Kill <==> a.name@ != "main"@ && root::runs(old(root)@, a.name@),
        r matches StopStep::Answer(x) ==> !x.ok && x.id@ == id@ && x.error is Some && final(root)@
            == old(root)@,
        r matches StopStep::Kill(pids, x) ==> {
            &&& x.ok
            &&& x.id@ == id@
            &&& x.data is Some
            &&& json::text_member(json::model(x.data->0), "name"@) == Some(a.name@)
            &&& json::text_member(json::model(x.data->0), "status"@) == Some("stopped"@)
            &&& old(root)@.table[a.name@].pid is Some ==> pids@ == seq![
                old(root)@.table[a.name@].pid->0,
            ]
            &&& old(root)@.table[a.name@].pid is None ==> pids@.len() == 0
            &&& final(root)@.table[a.name@].stopping
            &&& final(root)@.table[a.name@].state == ProcessState::Running
            &&& final(root)@.table.dom() == old(root)@.table.dom()
            &&& forall|k: Seq<char>|
                k != a.name@ ==> #[trigger] final(root)@.table[k] == old(root)@.table[k]
        },
{
    if r is Kill {
        let x = r->Kill_1;
        let s = seq![("name"@, Js::Text(a.name@)), ("status"@, Js::Text("stopped"@))];
        reveal_strlit("name");
        reveal_strlit("status");
        assert("name"@.len() != "status"@.len());
        fields::lemma_field(s, 0);
        fields::lemma_field(s, 1);
        assert(final(root)@.table.dom() =~= old(root)@.table.dom());
        let one = seq![a.name@];
        assert(one.drop_last() =~= Seq::<Seq<char>>::empty());
        assert(control::pids_of(old(root)@, one.drop_last()) =~= Seq::<u32>::empty());
        if old(root)@.table[a.name@].pid is Some {
            assert(control::pids_of(old(root)@, one) =~= seq![old(root)@.table[a.name@].pid->0]);
        }
    }
}

/// A request to stop a template stops each of its running instances and nothing else.
pub proof fn lemma_stop_of_a_template(
    root: &mut SharedRoot,
    id: &str,
    a: StopArgs,
    psyfile: Result<Option<Psyfile>, String>,
    pids: Vec<u32>,
    x: Response,
    k: Seq<char>,
)
    requires
        call_ensures(
            SharedRoot::begin_stop,
            (root, id, &Some(a), &psyfile),
            StopStep::Kill(pids, x),
        ),
        query::names_template(psyfile, a.name@),
        forall|n: Seq<char>| #[trigger]
            old(root)@.table.dom().contains(n) <==> old(root).names().contains(n),
        old(root).names().no_duplicates(),
        old(root)@.table.dom().contains(k),
    ensures
        x.ok,
        text::starts_with(k, a.name@ + "."@) && root::runs(old(root)@, k) ==> final(
            root)@.table[k].stopping && (old(root)@.table[k].pid is Some ==> pids@.contains(
            old(root)@.table[k].pid->0,
        )),
        !(text::starts_with(k, a.name@ + "."@) && root::runs(old(root)@, k)) ==> final(
            root)@.table[k] == old(root)@.table[k],
        forall|i: int|
            0 <= i < pids@.len() ==> is_of_an_instance(old(root)@, a.name@, #[trigger] pids@[i]),
{
    let names = old(root).names();
    lemma_instances_stopped(old(root)@, names, a.name@, k);
    let hit = control::instances_running(old(root)@, names, a.name@);
    lemma_pids(old(root)@, hit);
    if text::starts_with(k, a.name@ + "."@) && root::runs(old(root)@, k) {
        assert(names.contains(k));
    }
    assert forall|i: int| 0 <= i < pids@.len() implies is_of_an_instance(
        old(root)@,
        a.name@,
        #[trigger] pids@[i],
    ) by {
        let j = choose|j: int|
            0 <= j < hit.len() && old(root)@.table[#[trigger] hit[j]].pid == Some(pids@[i]);
        lemma_instances_stopped(old(root)@, names, a.name@, hit[j]);
        assert(hit.contains(hit[j]));
        assert(root::runs(old(root)@, hit[j]));
    }
}

/// Whether a process id is that of a running instance of a template.
pub open spec fn is_of_an_instance(r: root::RootView, template: Seq<char>, pid: u32) -> bool {
    exists|n: Seq<char>| #[trigger]
        root::runs(r, n) && text::starts_with(n, template + "."@) && r.table[n].pid == Some(pid)
}

proof fn lemma_instances_stopped(
    r: root::RootView,
    names: Seq<Seq<char>>,
    template: Seq<char>,
    k: Seq<char>,
)
    requires
        names.no_duplicates(),
    ensures
        ({
            let hit = text::starts_with(k, template + "."@) && root::runs(r, k) && names.contains(
                k,
            );
            let after = control::stop_instances(r, names, template);
            &&& hit ==> after.table[k].stopping
            &&& !hit ==> after.table[k] == r.table[k]
            &&& control::instances_running(r, names, template).contains(k) <==> hit
        }),
    decreases names.len(),
{
    if names.len() > 0 {
        let rest = names.drop_last();
        let last = names.last();
        let before = control::instances_running(r, rest, template);
        lemma_instances_stopped(r, rest, template, k);
        assert(names[names.len() - 1] == last);
        if rest.contains(k) {
            let i = rest.index_of(k);
            assert(names[i] == k);
            assert(k != last);
        }
        if names.contains(k) && k != last {
            let i = names.index_of(k);
            assert(rest[i] == k);
        }
        if control::running_instance(r, template, last) {
            let h = before.push(last);
            assert(h[before.len() as int] == last);
            if before.contains(k) {
                let i = before.index_of(k);
                assert(h[i] == k);
            }
            if h.contains(k) && k != last {
                let i = h.index_of(k);
                assert(before[i] == k);
            }
        }
    }
}

proof fn lemma_pids(r: root::RootView, names: Seq<Seq<char>>)
    ensures
        forall|i: int|
            0 <= i < names.len() && r.table[#[trigger] names[i]].pid is Some ==> control::pids_of(
                r,
                names,
            ).contains(r.table[names[i]].pid->0),
        forall|i: int|
            0 <= i < control::pids_of(r, names).len() ==> exists|j: int|
                0 <= j < names.len() && r.table[#[trigger] names[j]].pid == Some(
                    #[trigger] control::pids_of(r, names)[i],
                ),
    decreases names.len(),
{
    if names.len() > 0 {
        let rest = names.drop_last();
        let before = control::pids_of(r, rest);
        let all = control::pids_of(r, names);
        lemma_pids(r, rest);
        assert forall|i: int|
            0 <= i < names.len() && r.table[#[trigger] names[i]].pid is Some implies all.contains(
            r.table[names[i]].pid->0,
        ) by {
            if i < rest.len() {
                assert(rest[i] == names[i]);
                let p = r.table[rest[i]].pid->0;
                assert(before.contains(p));
                let q = before.index_of(p);
                assert(all[q] == p);
            } else {
                assert(all[before.len() as int] == r.table[names.last()].pid->0);
            }
        }
        assert forall|i: int| 0 <= i < all.len() implies exists|j: int|
            0 <= j < names.len() && r.table[#[trigger] names[j]].pid == Some(#[trigger] all[i]) by {
            if i < before.len() {
                assert(all[i] == before[i]);
                let j = choose|j: int|
                    0 <= j < rest.len() && r.table[#[trigger] rest[j]].pid == Some(before[i]);
                assert(names[j] == rest[j]);
            } else {
                assert(r.table[names[names.len() - 1]].pid == Some(all[i]));
            }
        }
    }
}

/// A process that is stopped on request ends as stopped, whatever its code.
pub proof fn lemma_stopped_on_request(
    root: &mut SharedRoot,
    next: &mut SharedRoot,
    id: &str,
    a: StopArgs,
    psyfile: Result<Option<Psyfile>, String>,
    pids: Vec<u32>,
    answer: Response,
    name: &str,
    run_id: u32,
    x: ExitInfo,
    now: Timestamp,
    step: ExitStep,
)
    requires
        call_ensures(
            SharedRoot::begin_stop,
            (root, id, &Some(a), &psyfile),
            StopStep::Kill(pids, answer),
        ),
        !query::names_template(psyfile, a.name@),
        old(next)@ == final(root)@,
        name@ == a.name@,
        old(next)@.table[name@].current_run_id == run_id,
        call_ensures(SharedRoot::on_exit, (next, name, run_id, x, now), step),
    ensures
        final(next)@.table[name@].state == ProcessState::Stopped,
        !final(next)@.table[name@].stopping,
        final(next)@.table[name@].exit_status == x.code,
{
}

// ---------------------------------------------------------------------------
// Restart on request
// ---------------------------------------------------------------------------

/// A request to restart a process stops it on purpose and starts one of its name again;
/// one for a template does so for each of its instances.
pub proof fn lemma_restart_on_request(
    root: &mut SharedRoot,
    id: &str,
    a: RestartArgs,
    psyfile: Result<Option<Psyfile>, String>,
    host: NameMap<String>,
    r: RestartStep,
)
    requires
        call_ensures(SharedRoot::begin_restart, (root, id, &Some(a), &psyfile, &host), r),
    ensures
        query::names_template(psyfile, a.name@) <==> r is Each,
        !query::names_template(psyfile, a.name@) ==> (r is One <==> old(root)@.table.dom().contains(
            a.name@,
        )),
        r matches RestartStep::Answer(x) ==> !x.ok && x.id@ == id@ && x.error is Some && final(
            root)@ == old(root)@,
        r matches RestartStep::One(pid, s) ==> {
            let e = old(root)@.table[a.name@];
            &&& pid == e.pid
            &&& s.name@ == a.name@
            &&& !s.attach
            &&& s@.ports == e.ports
            &&& s@.metadata == e.metadata
            &&& s@.asked == e.asked
            &&& final(root)@.table[a.name@].stopping
            &&& final(root)@.table.dom() == old(root)@.table.dom()
            &&& forall|k: Seq<char>|
                k != a.name@ ==> #[trigger] final(root)@.table[k] == old(root)@.table[k]
        },
        r matches RestartStep::Each(n, x) ==> x.ok && final(root)@ == old(root)@ && forall|i: int|
            0 <= i < n@.len() ==> text::starts_with((#[trigger] n@[i])@, a.name@ + "."@),
        r is Each ==> forall|k: Seq<char>|
            old(root).names().contains(k) && text::starts_with(k, a.name@ + "."@)
                ==> #[trigger] text::texts(r->Each_0@).contains(k),
{
    if let RestartStep::Each(n, x) = r {
        lemma_instances(old(root).names(), a.name@);
        assert forall|i: int| 0 <= i < n@.len() implies text::starts_with(
            (#[trigger] n@[i])@,
            a.name@ + "."@,
        ) by {
            assert(text::texts(n@)[i] == n@[i]@);
        }
    }
    if r is One {
        assert(final(root)@.table.dom() =~= old(root)@.table.dom());
    }
}

proof fn lemma_instances(names: Seq<Seq<char>>, template: Seq<char>)
    ensures
        forall|i: int|
            0 <= i < control::instances_of(names, template).len() ==> text::starts_with(
                #[trigger] control::instances_of(names, template)[i],
                template + "."@,
            ),
        forall|k: Seq<char>|
            names.contains(k) && text::starts_with(k, template + "."@)
                ==> #[trigger] control::instances_of(names, template).contains(k),
    decreases names.len(),
{
    if names.len() > 0 {
        let rest = names.drop_last();
        let before = control::instances_of(rest, template);
        let all = control::instances_of(names, template);
        lemma_instances(rest, template);
        assert forall|i: int| 0 <= i < all.len() implies text::starts_with(
            #[trigger] all[i],
            template + "."@,
        ) by {
            if i < before.len() {
                assert(all[i] == before[i]);
            }
        }
        assert forall|k: Seq<char>|
            names.contains(k) && text::starts_with(k, template + "."@) implies #[trigger] all.contains(
            k,
        ) by {
            let i = names.index_of(k);
            if i < rest.len() {
                assert(rest[i] == k);
                assert(before.contains(k));
                let q = before.index_of(k);
                assert(all[q] == k);
            } else {
                assert(all[before.len() as int] == k);
            }
        }
    }
}

/// A process that starts again keeps its runs, the last one with them, and has a run of
/// its own; what its request asked for is what it gets.
pub proof fn lemma_restart_keeps_history(root: &mut SharedRoot, s: SpawnRequest, e: ProcessEntry)
    requires
        call_ensures(SharedRoot::prepare_restart, (root, s), e),
        old(root)@.table.dom().contains(s.name@),
        old(root)@.table[s.name@].current_run_id < u32::MAX,
    ensures
        ({
            let was = old(root)@.table[s.name@];
            &&& e@.current_run_id == was.current_run_id + 1
            &&& e@.run_history.len() == was.run_history.len() + 1
            &&& e@.run_history.last().run_id == was.current_run_id
            &&& e@.run_history.last().stdout == was.stdout
            &&& e@.run_history.last().stderr == was.stderr
            &&& e@.run_history.last().exit_status == was.exit_status
        }),
        e@.name == s.name@,
        e@.command == s@.command,
        e@.env == s@.env,
        e@.restart_policy == s@.restart,
        e@.working_dir == s@.working_dir,
        e@.ready_config == s@.ready,
        e@.healthcheck_config == s@.healthcheck,
        e@.ports == s@.ports,
        e@.metadata == s@.metadata,
        e@.sub_root == s@.sub_root,
        e@.recipe == s@.recipe,
        e@.asked == s@.asked,
        e@.restarts == 0,
        !final(root)@.table.dom().contains(s.name@),
{
}

// ---------------------------------------------------------------------------
// Clean up and shut down
// ---------------------------------------------------------------------------

/// Cleaning up forgets exactly the processes that do not run, and says how many.
pub proof fn lemma_clean_forgets_the_ended(root: &mut SharedRoot, id: &str, r: Response)
    requires
        call_ensures(SharedRoot::handle_clean, (root, id), r),
    ensures
        r.ok,
        r.id@ == id@,
        forall|k: Seq<char>| #[trigger]
            final(root)@.table.dom().contains(k) <==> root::runs(old(root)@, k),
        forall|k: Seq<char>|
            root::runs(old(root)@, k) ==> #[trigger] final(root)@.table[k] == old(root)@.table[k],
        r.data is Some,
        json::number_member(json::model(r.data->0), "removed"@) is Some,
        old(root).names().len() <= u64::MAX ==> json::number_member(
            json::model(r.data->0),
            "removed"@,
        )->0 == old(root).names().len() - final(root).names().len(),
        final(root)@.shutting_down == old(root)@.shutting_down,
        final(root)@.counters == old(root)@.counters,
{
    let n = (old(root).names().len() - control::running_of(old(root)@, old(root).names()).len()) as nat;
    let s = seq![("removed"@, Js::Unsigned(n as u64))];
    fields::lemma_field(s, 0);
    lemma_running_len(old(root)@, old(root).names());
}

proof fn lemma_running_len(r: root::RootView, names: Seq<Seq<char>>)
    ensures
        control::running_of(r, names).len() <= names.len(),
        forall|k: Seq<char>| #[trigger]
            control::running_of(r, names).contains(k) <==> names.contains(k) && root::runs(r, k),
    decreases names.len(),
{
    if names.len() > 0 {
        let rest = names.drop_last();
        let before = control::running_of(r, rest);
        let all = control::running_of(r, names);
        lemma_running_len(r, rest);
        assert(names[names.len() - 1] == names.last());
        assert forall|k: Seq<char>| #[trigger] all.contains(k) <==> names.contains(k) && root::runs(
            r,
            k,
        ) by {
            assert(before.contains(k) <==> rest.contains(k) && root::runs(r, k));
            if rest.contains(k) {
                let i = rest.index_of(k);
                assert(names[i] == k);
            }
            if names.contains(k) && k != names.last() {
                let i = names.index_of(k);
                assert(rest[i] == k);
            }
            if root::runs(r, names.last()) {
                assert(all[before.len() as int] == names.last());
                if before.contains(k) {
                    let i = before.index_of(k);
                    assert(all[i] == k);
                }
                if all.contains(k) && k != names.last() {
                    let i = all.index_of(k);
                    assert(before[i] == k);
                }
            }
        }
    }
}

/// Shutting down ends every running process and no other, and from then on none is
/// started.
pub proof fn lemma_teardown_ends_all(
    root: &mut SharedRoot,
    later: SharedRoot,
    r: Vec<(String, Option<u32>)>,
    ending: bool,
    k: Seq<char>,
)
    requires
        call_ensures(SharedRoot::begin_teardown, (root,), r),
        forall|n: Seq<char>| #[trigger]
            old(root)@.table.dom().contains(n) <==> old(root).names().contains(n),
        later@ == final(root)@,
        call_ensures(SharedRoot::is_shutting_down, (&later,), ending),
    ensures
        ending,
        final(root)@.table == old(root)@.table,
        root::runs(old(root)@, k) ==> exists|i: int|
            0 <= i < r@.len() && (#[trigger] r@[i]).0@ == k && r@[i].1
                == old(root)@.table[k].pid,
        forall|i: int|
            0 <= i < r@.len() ==> root::runs(old(root)@, (#[trigger] r@[i]).0@) && r@[i].1 == old(
                root,
            )@.table[r@[i].0@].pid,
{
    let names = old(root).names();
    let all = control::running_of(old(root)@, names);
    lemma_running_len(old(root)@, names);
    if root::runs(old(root)@, k) {
        assert(names.contains(k));
        assert(all.contains(k));
        let j = all.index_of(k);
        let i = r@.len() - 1 - j;
        assert(all[r@.len() - 1 - i] == k);
        assert(r@[i].0@ == k);
    }
    assert forall|i: int| 0 <= i < r@.len() implies root::runs(old(root)@, (#[trigger] r@[i]).0@)
        && r@[i].1 == old(root)@.table[r@[i].0@].pid by {
        let name = all[r@.len() - 1 - i];
        assert(r@[i].0@ == name);
        assert(all.contains(name));
    }
}

/// A root exits with the code that it is told, or with 128 and the number of the signal.
pub proof fn lemma_exit_codes(c: i32, a: i32, b: i32, t: i32)
    requires
        call_ensures(serve::exit_code, (Ending::Exit(c),), a),
        call_ensures(serve::exit_code, (Ending::Interrupted,), b),
        call_ensures(serve::exit_code, (Ending::Terminated,), t),
    ensures
        a == c,
        b == 128 + 2,
        t == 128 + 15,
{
}

// ---------------------------------------------------------------------------
// What hosts see
// ---------------------------------------------------------------------------

/// A host learns how a process ended once it has, and not before; it kills the process of
/// that name.
pub proof fn lemma_exit_status_for_hosts(
    root: SharedRoot,
    name: &str,
    r: Result<Option<ExitStatus>, PsyError>,
    p: Result<u32, PsyError>,
)
    requires
        call_ensures(SharedRoot::exit_status, (&root, name), r),
        call_ensures(SharedRoot::pid_to_kill, (&root, name), p),
    ensures
        r is Err <==> !root@.table.dom().contains(name@),
        r matches Err(e) ==> e@ == ErrorView::NotFound(name@),
        root::runs(root@, name@) ==> r is Ok && r->Ok_0 is None,
        root@.table.dom().contains(name@) && !root::runs(root@, name@) ==> r->Ok_0 is Some
            && r->Ok_0->0.exit_code == root@.table[name@].exit_status && text::opt_text(
            r->Ok_0->0.signal,
        ) == root@.table[name@].signal,
        p is Ok <==> root@.table.dom().contains(name@) && root@.table[name@].pid is Some,
        p matches Ok(x) ==> root@.table[name@].pid == Some(x),
        p matches Err(e) ==> e@ == ErrorView::NotFound(name@),
{
}

/// A host may write to a process just where it runs, was started for input, and its stdin
/// is open; once it is closed it stays so.
pub proof fn lemma_writing_for_hosts(
    root: &mut SharedRoot,
    before: SharedRoot,
    later: SharedRoot,
    name: &str,
    r: Result<(), PsyError>,
    c: Result<(), PsyError>,
    s: Result<(), PsyError>,
)
    requires
        before@ == old(root)@,
        call_ensures(SharedRoot::begin_write, (&before, name), r),
        call_ensures(SharedRoot::close_stdin, (root, name), c),
        later@ == final(root)@,
        call_ensures(SharedRoot::begin_write, (&later, name), s),
    ensures
        r is Ok <==> root::runs(before@, name@) && before@.table[name@].interactive
            && before@.table[name@].stdin_open && !before@.table[name@].stdin_closed,
        c is Ok <==> before@.table.dom().contains(name@) && before@.table[name@].interactive,
        c is Ok ==> s is Err,
        c is Err ==> final(root)@ == old(root)@,
        c is Ok ==> forall|k: Seq<char>|
            k != name@ ==> #[trigger] final(root)@.table[k] == old(root)@.table[k],
{
}

// ---------------------------------------------------------------------------
// Requests and roots below
// ---------------------------------------------------------------------------

/// Each command has a meaning of its own, and any other text has none.
pub proof fn lemma_commands(req: Request, r: Result<Route, Response>)
    requires
        call_ensures(serve::handle_request, (&req,), r),
    ensures
        req.cmd@ == "run"@ <==> r == Ok::<Route, Response>(Route::Run),
        req.cmd@ == "ps"@ <==> r == Ok::<Route, Response>(Route::Ps),
        req.cmd@ == "logs"@ <==> r == Ok::<Route, Response>(Route::Logs),
        req.cmd@ == "logs_follow"@ <==> r == Ok::<Route, Response>(Route::LogsFollow),
        req.cmd@ == "stop"@ <==> r == Ok::<Route, Response>(Route::Stop),
        req.cmd@ == "restart"@ <==> r == Ok::<Route, Response>(Route::Restart),
        req.cmd@ == "down"@ <==> r == Ok::<Route, Response>(Route::Down),
        req.cmd@ == "history"@ <==> r == Ok::<Route, Response>(Route::History),
        req.cmd@ == "send"@ <==> r == Ok::<Route, Response>(Route::Send),
        req.cmd@ == "send_wait"@ <==> r == Ok::<Route, Response>(Route::SendWait),
        req.cmd@ == "clean"@ <==> r == Ok::<Route, Response>(Route::Clean),
        req.cmd@ == "register_subroot"@ <==> r == Ok::<Route, Response>(Route::RegisterSubroot),
        r matches Err(x) ==> !x.ok && x.id@ == req.id@ && x.error is Some && text::ends_with(
            x.error->0@,
            req.cmd@,
        ),
{
    reveal_strlit("run");
    reveal_strlit("ps");
    reveal_strlit("logs");
    reveal_strlit("logs_follow");
    reveal_strlit("stop");
    reveal_strlit("restart");
    reveal_strlit("down");
    reveal_strlit("history");
    reveal_strlit("send");
    reveal_strlit("send_wait");
    reveal_strlit("clean");
    reveal_strlit("register_subroot");
    assert("logs"@[0] == 'l' && "stop"@[0] == 's' && "down"@[0] == 'd' && "send"@[0] == 's');
    assert("stop"@[1] == 't' && "send"@[1] == 'e');
    assert("restart"@[0] == 'r' && "history"@[0] == 'h');
    if let Err(x) = r {
        let m = x.error->0@;
        assert(m.subrange(m.len() - req.cmd@.len(), m.len() as int) =~= req.cmd@);
    }
}

/// A root registers below this one only where it descends from it, with a name that is
/// valid and a socket; under a name that is known, only as the child that was started there
/// as a root of its own. Then its socket is known, and nothing else of the process changes.
pub proof fn lemma_sub_root_registers(
    root: &mut SharedRoot,
    id: &str,
    a: RegisterSubrootArgs,
    ancestors: Vec<u32>,
    now: Timestamp,
    r: Response,
)
    requires
        call_ensures(SharedRoot::register_subroot, (root, id, &Some(a), &ancestors, now), r),
    ensures
        ({
            let known = old(root)@.table.dom().contains(a.name@);
            let e = old(root)@.table[a.name@];
            &&& r.id@ == id@
            &&& r.ok <==> process::valid_name(a.name@) && a.socket_path@.len() > 0
                && ancestors@.contains(old(root)@.psy_root_pid) && (known ==> e.sub_root && e.pid
                == Some(a.pid))
            &&& !r.ok ==> final(root)@ == old(root)@ && r.error is Some
            &&& r.ok ==> final(root)@.table.dom().contains(a.name@) && final(
                root)@.table[a.name@].subroot_socket == Some(a.socket_path@) && final(
                root)@.table[a.name@].sub_root && final(root)@.table[a.name@].pid == Some(a.pid)
            &&& r.ok && known ==> final(root)@.table[a.name@].state == e.state && final(
                root)@.table[a.name@].command == e.command && final(
                root)@.table[a.name@].run_history == e.run_history
            &&& r.ok && !known ==> root::runs(final(root)@, a.name@) && final(
                root)@.table[a.name@].started_at == Some(now)
            &&& forall|k: Seq<char>|
                k != a.name@ ==> #[trigger] final(root)@.table[k] == old(root)@.table[k]
        }),
{
}

/// A valid name is one of 1 to 63 letters, digits, hyphens and underscores that begins with
/// a letter or a digit.
pub proof fn lemma_names(name: &str, r: bool)
    requires
        call_ensures(process::validate_name, (name,), r),
    ensures
        r ==> 1 <= name@.len() <= 63 && name@[0] != '-' && name@[0] != '_',
        r ==> forall|i: int|
            0 <= i < name@.len() ==> {
                let c = #[trigger] name@[i];
                'a' <= c <= 'z' || 'A' <= c <= 'Z' || '0' <= c <= '9' || c == '-' || c == '_'
            },
        1 <= name@.len() <= 63 && name@[0] != '-' && name@[0] != '_' && (forall|i: int|
            0 <= i < name@.len() ==> {
                let c = #[trigger] name@[i];
                'a' <= c <= 'z' || 'A' <= c <= 'Z' || '0' <= c <= '9' || c == '-' || c == '_'
            }) ==> r,
{
    if 1 <= name@.len() {
        let c = name@[0];
    }
}

} // verus!
