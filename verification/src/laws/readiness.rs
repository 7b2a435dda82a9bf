//! When a process counts as ready, and who waits for it.
use crate::process::ProcessEntry;
use crate::process;
use crate::protocol::{ProcessInfo, Response, WaitFor};
use crate::psyfile::{ProbeKindView, Psyfile};
use crate::root;
use crate::root::life::{ExitInfo, ExitStep, Respawned};
use crate::root::run;
use crate::root::run::SpawnRequest;
use crate::root::SharedRoot;
use crate::root::start;
use crate::root::start::{Progress, Start, StartStep};
use crate::root::wait::Waiting;
use crate::time::{Duration, Timestamp};
use vstd::prelude::*;

verus! {

/// A process that becomes ready by exiting with a code does so with that code only.
/// After any other exit it is not ready: it counts as failed, whoever waits for it
/// waits in vain, and what depends on it is still held back.
pub proof fn lemma_ready_by_exit(
    root: &mut SharedRoot,
    later: SharedRoot,
    name: &str,
    run_id: u32,
    x: ExitInfo,
    now: Timestamp,
    code: i32,
    step: ExitStep,
    waiter: &str,
    dep: String,
    state: Waiting,
    dependent: Waiting,
    hold: Option<Duration>,
)
    requires
        call_ensures(SharedRoot::on_exit, (root, name, run_id, x, now), step),
        later@ == final(root)@,
        call_ensures(SharedRoot::waiting, (&later, name, &WaitFor::Ready), state),
        dep@ == name@,
        call_ensures(
            SharedRoot::waiting,
            (&later, waiter, &WaitFor::Dependency { name: dep }),
            dependent,
        ),
        call_ensures(SharedRoot::ready_wait, (&later, name), hold),
        old(root)@.table.dom().contains(name@),
        old(root)@.table[name@].current_run_id == run_id,
        !old(root)@.table[name@].ready,
        old(root)@.table[name@].ready_config is Some,
        old(root)@.table[name@].ready_config->0.probe == ProbeKindView::Exit(code),
    ensures
        x.code == Some(code) <==> final(root)@.table[name@].ready,
        x.code == Some(code) <==> state == Waiting::Met,
        x.code == Some(code) <==> dependent == Waiting::Met,
        x.code != Some(code) <==> state == Waiting::Lost,
        x.code != Some(code) <==> dependent == Waiting::Lost,
        x.code != Some(code) ==> final(root)@.table[name@].ready_failed,
        x.code == Some(code) ==> final(root)@.table[name@].ready_failed
            == old(root)@.table[name@].ready_failed,
        x.code != Some(code) <==> hold == Some(old(root)@.table[name@].ready_config->0.timeout),
        x.code == Some(code) <==> hold is None,
{
}

/// The same of the entry itself: it is ready if and only if the code is the awaited one,
/// and else it has failed.
pub proof fn lemma_entry_ready_by_exit(e: &mut ProcessEntry, x: ExitInfo, now: Timestamp, code: i32)
    requires
        call_ensures(ProcessEntry::mark_exited, (e, x, now), ()),
        !old(e)@.ready,
        !old(e)@.ready_failed,
        old(e)@.ready_config is Some,
        old(e)@.ready_config->0.probe == ProbeKindView::Exit(code),
    ensures
        final(e)@.ready <==> x.code == Some(code),
        final(e)@.ready_failed <==> x.code != Some(code),
{
}

/// Where a process does not become ready by exiting, its exit says nothing about its
/// readiness.
pub proof fn lemma_exit_leaves_readiness(e: &mut ProcessEntry, x: ExitInfo, now: Timestamp)
    requires
        call_ensures(ProcessEntry::mark_exited, (e, x, now), ()),
        old(e)@.ready_config matches Some(p) ==> !(p.probe is Exit),
    ensures
        final(e)@.ready == old(e)@.ready,
        final(e)@.ready_failed == old(e)@.ready_failed,
{
}

/// A probe that has passed makes its process ready and lets go who waits for it; one
/// that has given up does not, and who waits for the process waits in vain. Nothing
/// else changes.
pub proof fn lemma_probe_settles(
    root: &mut SharedRoot,
    later: SharedRoot,
    name: &str,
    passed: bool,
    state: Waiting,
    hold: Option<Duration>,
)
    requires
        call_ensures(SharedRoot::note_readiness, (root, name, passed), ()),
        later@ == final(root)@,
        call_ensures(SharedRoot::waiting, (&later, name, &WaitFor::Ready), state),
        call_ensures(SharedRoot::ready_wait, (&later, name), hold),
        old(root)@.table.dom().contains(name@),
        !old(root)@.table[name@].ready,
    ensures
        passed <==> final(root)@.table[name@].ready,
        passed <==> state == Waiting::Met,
        !passed <==> state == Waiting::Lost,
        !passed ==> final(root)@.table[name@].ready_failed,
        passed ==> hold is None,
        final(root)@.table[name@].state == old(root)@.table[name@].state,
        final(root)@.table[name@].pid == old(root)@.table[name@].pid,
        forall|k: Seq<char>|
            k != name@ ==> #[trigger] final(root)@.table[k] == old(root)@.table[k],
{
}

/// A running process that is neither ready nor given up is waited for, for as long as
/// its probe says.
pub proof fn lemma_pending_until_ready(
    root: SharedRoot,
    name: &str,
    state: Waiting,
    hold: Option<Duration>,
    health: Option<bool>,
)
    requires
        call_ensures(SharedRoot::waiting, (&root, name, &WaitFor::Ready), state),
        call_ensures(SharedRoot::ready_wait, (&root, name), hold),
        call_ensures(SharedRoot::healthcheck_waits, (&root, name), health),
        root::runs(root@, name@),
    ensures
        !root@.table[name@].ready && !root@.table[name@].ready_failed <==> state
            == Waiting::Pending,
        root@.table[name@].ready ==> state == Waiting::Met && hold is None,
        hold is Some <==> !root@.table[name@].ready && root@.table[name@].ready_config is Some,
        hold is Some ==> hold->0 == root@.table[name@].ready_config->0.timeout,
        health == Some(!root@.table[name@].ready),
{
}

/// A process that has ended without having become ready is not waited for any longer,
/// and neither is one that is not known.
pub proof fn lemma_ended_is_lost(root: SharedRoot, name: &str, state: Waiting, over: Waiting)
    requires
        call_ensures(SharedRoot::waiting, (&root, name, &WaitFor::Ready), state),
        call_ensures(SharedRoot::waiting, (&root, name, &WaitFor::Exit), over),
        !root::runs(root@, name@),
    ensures
        state != Waiting::Pending,
        state == Waiting::Met <==> root@.table.dom().contains(name@)
            && root@.table[name@].ready,
        over == Waiting::Met,
{
}

/// A process with a readiness probe starts out not ready, one without is ready at once.
/// The probe that is carried out is its own; one for the exit is not carried out.
pub proof fn lemma_starts_unready(
    root: &mut SharedRoot,
    next: &mut SharedRoot,
    id: &str,
    s: SpawnRequest,
    e: ProcessEntry,
    pid: Option<u32>,
    now: Timestamp,
    attach: bool,
    interactive: bool,
    out: run::Spawned,
)
    requires
        call_ensures(
            SharedRoot::prepare_spawn,
            (root, id, s),
            Ok::<ProcessEntry, Response>(e),
        ),
        old(next)@ == final(root)@,
        call_ensures(
            SharedRoot::commit_spawn,
            (next, id, e, pid, now, attach, interactive),
            out,
        ),
    ensures
        root::runs(final(next)@, s@.name),
        final(next)@.table[s@.name].ready <==> s@.ready is None,
        !final(next)@.table[s@.name].ready_failed,
        final(next)@.table[s@.name].ready_config == s@.ready,
        final(next)@.table[s@.name].pid == pid,
        final(next)@.table[s@.name].started_at == Some(now),
        s@.ready is None ==> out.ready_probe is None,
        s@.ready matches Some(p) ==> (out.ready_probe is None <==> p.probe is Exit),
        out.ready_probe matches Some(p) ==> s@.ready == Some(p@),
        out.healthcheck is Some <==> s@.healthcheck is Some,
        out.healthcheck matches Some(h) ==> s@.healthcheck == Some(h@),
        out.attach == attach,
        out.answer.ok,
        out.answer.id@ == id@,
{
}

/// A process that restarts by itself has to become ready anew, where it has a probe.
pub proof fn lemma_respawn_starts_over(
    root: &mut SharedRoot,
    next: &mut SharedRoot,
    name: &str,
    plan: Result<process::SpawnPlan, String>,
    pid: Option<u32>,
    now: Timestamp,
    again: Respawned,
)
    requires
        old(root)@.table.dom().contains(name@),
        old(root)@.table[name@].current_run_id < u32::MAX,
        old(root)@.table[name@].restarts < u32::MAX,
        call_ensures(SharedRoot::begin_respawn, (root, name), Some(plan)),
        old(next)@ == final(root)@,
        call_ensures(SharedRoot::commit_respawn, (next, name, pid, now), Some(again)),
    ensures
        root::runs(final(next)@, name@),
        final(next)@.table[name@].pid == pid,
        old(root)@.table[name@].ready_config is Some ==> !final(next)@.table[name@].ready
            && !final(next)@.table[name@].ready_failed,
        old(root)@.table[name@].ready_config is None ==> final(next)@.table[name@].ready
            == old(root)@.table[name@].ready,
        final(next)@.table[name@].restarts == old(root)@.table[name@].restarts + 1,
        final(next)@.table[name@].current_run_id == old(root)@.table[name@].current_run_id + 1,
        final(next)@.table[name@].run_history.len() == old(
            root,
        )@.table[name@].run_history.len() + 1,
        final(next)@.table[name@].run_history.last().run_id == old(
            root,
        )@.table[name@].current_run_id,
        final(next)@.table[name@].run_history.last().stdout == old(root)@.table[name@].stdout,
        final(next)@.table[name@].run_history.last().exit_status == old(
            root,
        )@.table[name@].exit_status,
        final(next)@.table[name@].stdout.lines.len() == 0,
        final(next)@.table[name@].stderr.lines.len() == 0,
        again.healthcheck is Some <==> old(root)@.table[name@].healthcheck_config is Some,
        again.healthcheck matches Some(h) ==> old(root)@.table[name@].healthcheck_config
            == Some(h@),
        again.ready_probe matches Some(p) ==> old(root)@.table[name@].ready_config == Some(p@),
        plan is Ok <==> old(root)@.table[name@].command.len() > 0,
        plan matches Ok(p) ==> p.program@ == old(root)@.table[name@].command[0],
{
}

/// A process is started only after each of its dependencies that is left runs, where it
/// is one to start, and is not waited for any more.
pub proof fn lemma_dependents_are_held_back(
    s: &mut Start,
    root: SharedRoot,
    psyfile: Result<Option<Psyfile>, String>,
    i: int,
    dep: &str,
    hold: Option<Duration>,
    running: bool,
    p: Psyfile,
)
    requires
        call_ensures(Start::next, (s, &root, &psyfile), StartStep::Go),
        0 <= i < old(s)@.rest.len(),
        dep@ == old(s)@.rest[i],
        call_ensures(SharedRoot::ready_wait, (&root, dep), hold),
        psyfile == Ok::<Option<Psyfile>, String>(Some(p)),
        call_ensures(SharedRoot::dependency_running, (&root, &p, dep), running),
    ensures
        hold is None,
        old(s)@.starts && !(i == 0 && old(s)@.begun) ==> running,
{
    start::lemma_go(root@, run::loaded_units(psyfile), old(s)@);
    assert(run::wait_for_ready(root@, old(s)@.rest[i]) is None);
}

/// What is started or waited for next is one of the dependencies that are left: one that
/// is started does not run yet, and one that is waited for is not ready.
pub proof fn lemma_next_dependency(
    s: &mut Start,
    root: SharedRoot,
    psyfile: Result<Option<Psyfile>, String>,
    r: StartStep,
)
    requires
        call_ensures(Start::next, (s, &root, &psyfile), r),
    ensures
        old(s)@.rest.len() == 0 ==> r is Go,
        r matches StartStep::Run(n) ==> old(s)@.rest.contains(n@) && old(s)@.starts
            && final(s)@.rest.len() > 0 && final(s)@.rest[0] == n@,
        r matches StartStep::Run(n) ==> (run::unit_named(psyfile, n@) is Some && run::unit_named(
            psyfile,
            n@,
        )->0.singleton ==> !root::runs(root@, n@)),
        r matches StartStep::Wait(n, d) ==> {
            &&& old(s)@.rest.contains(n@)
            &&& final(s)@.rest.len() > 0
            &&& final(s)@.rest[0] == n@
            &&& root@.table.dom().contains(n@)
            &&& !root@.table[n@].ready
            &&& root@.table[n@].ready_config is Some
            &&& d == root@.table[n@].ready_config->0.timeout
        },
{
    let units = run::loaded_units(psyfile);
    start::lemma_next(root@, units, old(s)@);
    let k = choose|k: int|
        0 <= k <= old(s)@.rest.len() && #[trigger] old(s)@.rest.skip(k) == start::settled(
            root@,
            units,
            old(s)@,
        ).rest && (forall|i: int|
            0 <= i < k ==> run::wait_for_ready(root@, #[trigger] old(s)@.rest[i]) is None);
    if final(s)@.rest.len() > 0 {
        assert(final(s)@.rest[0] == old(s)@.rest[k]);
        assert(old(s)@.rest.contains(old(s)@.rest[k]));
    }
}

/// A dependency that could not be started, or did not become ready in time, is named in
/// the answer, and the process is not started: there is an answer just where that is so.
pub proof fn lemma_failed_dependency_is_named(
    s: &mut Start,
    t: &mut Start,
    id: &str,
    answer: Response,
    ready: bool,
    first: Option<Response>,
    second: Option<Response>,
)
    requires
        old(s)@.rest.len() > 0,
        old(t)@.rest.len() > 0,
        call_ensures(Start::started, (s, id, &answer), first),
        call_ensures(Start::waited, (t, id, ready), second),
    ensures
        first is None <==> answer.ok,
        first matches Some(a) ==> {
            &&& !a.ok
            &&& a.id@ == id@
            &&& a.error is Some
            &&& crate::text::contains(a.error->0@, old(s)@.rest[0])
            &&& answer.error matches Some(e) ==> crate::text::ends_with(a.error->0@, e@)
        },
        final(s)@.rest == old(s)@.rest,
        final(s)@.begun,
        second is None <==> ready,
        second matches Some(a) ==> {
            &&& !a.ok
            &&& a.id@ == id@
            &&& a.error is Some
            &&& crate::text::contains(a.error->0@, old(t)@.rest[0])
        },
        final(t)@.rest == old(t)@.rest.skip(1),
        !final(t)@.begun,
{
    if let Some(a) = first {
        let head = "failed to start dependency '"@;
        let name = old(s)@.rest[0];
        let m = a.error->0@;
        assert(m.subrange(head.len() as int, (head.len() + name.len()) as int) =~= name);
        assert(crate::text::occurs_at(m, name, head.len() as int));
        if let Some(e) = answer.error {
            assert(m.skip(m.len() - e@.len()) =~= e@);
        }
    }
    if let Some(a) = second {
        let head = "dependency '"@;
        let name = old(t)@.rest[0];
        let m = a.error->0@;
        assert(m.subrange(head.len() as int, (head.len() + name.len()) as int) =~= name);
        assert(crate::text::occurs_at(m, name, head.len() as int));
    }
}

/// What is shown of the readiness of a process: nothing where it has no probe, and else
/// whether it has failed, is ready, or is waited for.
pub proof fn lemma_shown_readiness(e: ProcessEntry, now: Timestamp, r: ProcessInfo)
    requires
        call_ensures(ProcessEntry::to_ps_entry_at, (&e, &now), r),
    ensures
        r@.ready is None <==> e@.ready_config is None && e@.healthcheck_config is None,
        r@.ready is Some ==> (r@.ready == Some("failed"@) || r@.ready == Some("ready"@)
            || r@.ready == Some("waiting"@)),
        r@.ready is Some && e@.ready_failed ==> r@.ready == Some("failed"@),
        r@.ready is Some && !e@.ready_failed && e@.ready ==> r@.ready == Some("ready"@),
        r@.ready is Some && !e@.ready_failed && !e@.ready ==> r@.ready == Some("waiting"@),
{
}

/// A dependency that was started is not started once more: what is started after it stands
/// behind it.
pub proof fn lemma_started_once(
    s: &mut Start,
    t: &mut Start,
    id: &str,
    answer: Response,
    x: Option<Response>,
    root: SharedRoot,
    psyfile: Result<Option<Psyfile>, String>,
    r: StartStep,
)
    requires
        old(s)@.rest.len() > 0,
        call_ensures(Start::started, (s, id, &answer), x),
        old(t)@ == final(s)@,
        call_ensures(Start::next, (t, &root, &psyfile), r),
    ensures
        r is Run ==> final(t)@.rest.len() < old(s)@.rest.len(),
        r is Wait ==> final(t)@.rest.len() <= old(s)@.rest.len(),
{
    let units = run::loaded_units(psyfile);
    let p = old(t)@;
    if run::wait_for_ready(root@, p.rest[0]) is None {
        let q = Progress { rest: p.rest.skip(1), begun: false, ..p };
        start::lemma_next(root@, units, q);
        assert(start::settled(root@, units, p) == start::settled(root@, units, q));
    }
}

} // verus!
