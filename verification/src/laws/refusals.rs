//! What a request that is refused is answered.
use crate::api::{ErrorView, PsyError};
use crate::json;
use crate::json::Js;
use crate::laws::fields;
use crate::names::NameMap;
use crate::process;
use crate::process::ProcessState;
use crate::protocol::{RegisterSubrootArgs, Response, RestartArgs, RunArgs, SendArgs, SendWaitArgs};
use crate::protocol::StopArgs;
use crate::psyfile::Psyfile;
use crate::root;
use crate::root::control;
use crate::root::control::{RestartStep, StopStep};
use crate::root::input::{SendStep, WaitStep};
use crate::root::query;
use crate::root::run::RunStep;
use crate::root::SharedRoot;
use crate::text;
use crate::time::Timestamp;
use vstd::prelude::*;

verus! {

/// Whether an answer refuses a request with a reason.
pub open spec fn refuses(r: Response, id: Seq<char>, why: Seq<char>) -> bool {
    !r.ok && r.id@ == id && r.data is None && r.error is Some && r.error->0@ == why
}

/// A request without its arguments is refused as such.
pub proof fn lemma_no_arguments(
    root: &mut SharedRoot,
    send: &mut SharedRoot,
    again: &mut SharedRoot,
    sub: &mut SharedRoot,
    any: SharedRoot,
    id: &str,
    psyfile: Result<Option<Psyfile>, String>,
    host: NameMap<String>,
    ancestors: Vec<u32>,
    now: Timestamp,
    a: StopStep,
    b: SendStep,
    c: RestartStep,
    d: Response,
    e: WaitStep,
    f: RunStep,
)
    requires
        call_ensures(SharedRoot::begin_stop, (root, id, &None, &psyfile), a),
        call_ensures(SharedRoot::begin_send, (send, id, &None), b),
        call_ensures(SharedRoot::begin_restart, (again, id, &None, &psyfile, &host), c),
        call_ensures(SharedRoot::register_subroot, (sub, id, &None, &ancestors, now), d),
        call_ensures(SharedRoot::begin_send_wait, (&any, id, &None), e),
        call_ensures(SharedRoot::begin_run, (&any, id, &None, &psyfile), f),
        !any@.shutting_down,
    ensures
        a is Answer && refuses(a->Answer_0, id@, "invalid or missing stop args"@),
        b is Answer && refuses(b->Answer_0, id@, "invalid or missing send args"@),
        c is Answer && refuses(c->Answer_0, id@, "invalid or missing restart args"@),
        refuses(d, id@, "invalid or missing register_subroot args"@),
        e is Answer && refuses(e->Answer_0, id@, "invalid or missing send_wait args"@),
        f is Answer && refuses(f->Answer_0, id@, "invalid or missing run args"@),
{
}

/// Why a process is not stopped: it is the main one, it does not run, or it is not known.
pub proof fn lemma_stop_is_refused(
    root: &mut SharedRoot,
    id: &str,
    a: StopArgs,
    psyfile: Result<Option<Psyfile>, String>,
    r: StopStep,
)
    requires
        call_ensures(SharedRoot::begin_stop, (root, id, &Some(a), &psyfile), r),
    ensures
        ({
            let known = old(root)@.table.dom().contains(a.name@);
            let runs = known && old(root)@.table[a.name@].state == ProcessState::Running;
            let template = query::names_template(psyfile, a.name@);
            let main = a.name@ == "main"@;
            &&& main ==> r is Answer && refuses(
                r->Answer_0,
                id@,
                "cannot stop the main process (use 'down' instead)"@,
            )
            &&& !main && !template && known && !runs ==> r is Answer && refuses(
                r->Answer_0,
                id@,
                "process '"@ + a.name@ + "' is not running"@,
            )
            &&& !main && !template && !known ==> r is Answer && refuses(
                r->Answer_0,
                id@,
                "process '"@ + a.name@ + "' not found"@,
            )
        }),
{
}

/// How many instances were stopped, or are restarted, is told with the answer.
pub proof fn lemma_instances_are_counted(
    root: &mut SharedRoot,
    again: &mut SharedRoot,
    id: &str,
    a: StopArgs,
    b: RestartArgs,
    psyfile: Result<Option<Psyfile>, String>,
    host: NameMap<String>,
    s: StopStep,
    r: RestartStep,
)
    requires
        call_ensures(SharedRoot::begin_stop, (root, id, &Some(a), &psyfile), s),
        call_ensures(SharedRoot::begin_restart, (again, id, &Some(b), &psyfile, &host), r),
        query::names_template(psyfile, a.name@),
        query::names_template(psyfile, b.name@),
        a.name@ != "main"@,
        forall|k: Seq<char>| #[trigger]
            root::runs(old(root)@, k) ==> old(root)@.table[k].pid is Some,
    ensures
        s is Kill && s->Kill_1.ok && s->Kill_1.data is Some,
        json::member(json::model(s->Kill_1.data->0), "name"@) == Some(Js::Text(a.name@)),
        json::member(json::model(s->Kill_1.data->0), "status"@) == Some(Js::Text("stopped"@)),
        json::member(json::model(s->Kill_1.data->0), "instances"@) == Some(
            Js::Unsigned(s->Kill_0@.len() as u64),
        ),
        r is Each && r->Each_1.ok && r->Each_1.data is Some,
        json::member(json::model(r->Each_1.data->0), "name"@) == Some(Js::Text(b.name@)),
        json::member(json::model(r->Each_1.data->0), "status"@) == Some(Js::Text("restarted"@)),
        json::member(json::model(r->Each_1.data->0), "instances"@) == Some(
            Js::Unsigned(r->Each_0@.len() as u64),
        ),
{
    reveal_strlit("name");
    reveal_strlit("status");
    reveal_strlit("instances");
    assert("name"@.len() == 4 && "status"@.len() == 6 && "instances"@.len() == 9);
    let hit = control::instances_running(old(root)@, old(root).names(), a.name@);
    let x = seq![
        ("name"@, Js::Text(a.name@)),
        ("status"@, Js::Text("stopped"@)),
        ("instances"@, Js::Unsigned(hit.len() as u64)),
    ];
    fields::lemma_field(x, 0);
    fields::lemma_field(x, 1);
    fields::lemma_field(x, 2);
    lemma_as_many_pids(old(root)@, old(root).names(), a.name@);
    let all = text::texts(r->Each_0@);
    assert(all.len() == r->Each_0@.len());
    let y = seq![
        ("name"@, Js::Text(b.name@)),
        ("status"@, Js::Text("restarted"@)),
        ("instances"@, Js::Unsigned(all.len() as u64)),
    ];
    fields::lemma_field(y, 0);
    fields::lemma_field(y, 1);
    fields::lemma_field(y, 2);
}

proof fn lemma_as_many_pids(r: root::RootView, names: Seq<Seq<char>>, template: Seq<char>)
    requires
        forall|k: Seq<char>| #[trigger] root::runs(r, k) ==> r.table[k].pid is Some,
    ensures
        ({
            let hit = control::instances_running(r, names, template);
            &&& control::pids_of(r, hit).len() == hit.len()
            &&& forall|i: int| 0 <= i < hit.len() ==> root::runs(r, #[trigger] hit[i])
        }),
    decreases names.len(),
{
    let hit = control::instances_running(r, names, template);
    if names.len() > 0 {
        let rest = names.drop_last();
        lemma_as_many_pids(r, rest, template);
        let before = control::instances_running(r, rest, template);
        if control::running_instance(r, template, names.last()) {
            assert(hit.drop_last() =~= before);
            assert(hit.last() == names.last());
        }
    }
}

/// Why a process is not restarted on request.
pub proof fn lemma_restart_is_refused(
    root: &mut SharedRoot,
    id: &str,
    a: RestartArgs,
    psyfile: Result<Option<Psyfile>, String>,
    host: NameMap<String>,
    r: RestartStep,
)
    requires
        call_ensures(SharedRoot::begin_restart, (root, id, &Some(a), &psyfile, &host), r),
        !query::names_template(psyfile, a.name@),
        !old(root)@.table.dom().contains(a.name@),
    ensures
        r is Answer && refuses(r->Answer_0, id@, "process '"@ + a.name@ + "' not found"@),
{
}

/// Why nothing is written to a process: it is not known, does not run, was not started for
/// input, its stdin is closed, or someone is attached to it.
pub proof fn lemma_input_is_refused(
    root: &mut SharedRoot,
    any: SharedRoot,
    id: &str,
    a: SendArgs,
    b: SendWaitArgs,
    r: SendStep,
    w: WaitStep,
    h: Result<(), PsyError>,
    name: &str,
)
    requires
        call_ensures(SharedRoot::begin_send, (root, id, &Some(a)), r),
        any@ == old(root)@,
        b.name@ == a.name@,
        name@ == a.name@,
        b.timeout is None,
        b.idle_timeout is None,
        call_ensures(SharedRoot::begin_send_wait, (&any, id, &Some(b)), w),
        call_ensures(SharedRoot::begin_write, (&any, name), h),
    ensures
        ({
            let n = a.name@;
            let known = any@.table.dom().contains(n);
            let e = any@.table[n];
            let runs = known && e.state == ProcessState::Running;
            &&& !known ==> {
                &&& r is Answer && refuses(r->Answer_0, id@, "process '"@ + n + "' not found"@)
                &&& w is Answer && refuses(w->Answer_0, id@, "process '"@ + n + "' not found"@)
                &&& h is Err && h->Err_0@ == ErrorView::NotFound(n)
            }
            &&& known && !runs ==> {
                &&& r is Answer && refuses(
                    r->Answer_0,
                    id@,
                    "process '"@ + n + "' is not running"@,
                )
                &&& w is Answer && refuses(
                    w->Answer_0,
                    id@,
                    "process '"@ + n + "' is not running"@,
                )
                &&& h is Err && h->Err_0@ == ErrorView::Other(
                    "process '"@ + n + "' is not running"@,
                )
            }
            &&& runs && !e.interactive ==> {
                &&& r is Answer && !r->Answer_0.ok && text::starts_with(
                    r->Answer_0.error->0@,
                    "process '"@ + n + "' was not started with interactive mode"@,
                )
                &&& w is Answer && refuses(
                    w->Answer_0,
                    id@,
                    "process '"@ + n + "' was not started with interactive mode"@,
                )
                &&& h is Err
            }
            &&& runs && e.interactive && e.stdin_closed ==> {
                &&& r is Answer && refuses(
                    r->Answer_0,
                    id@,
                    "stdin for '"@ + n + "' has been closed"@,
                )
                &&& w is Answer && refuses(
                    w->Answer_0,
                    id@,
                    "stdin for '"@ + n + "' has been closed"@,
                )
                &&& h is Err && h->Err_0@ == ErrorView::Other(
                    "stdin for '"@ + n + "' has been closed"@,
                )
            }
            &&& runs && e.interactive && !e.stdin_closed && !e.stdin_open ==> {
                &&& !a.eof ==> r is Answer && refuses(
                    r->Answer_0,
                    id@,
                    "process '"@ + n + "' has an attached session, detach first"@,
                )
                &&& w is Answer && refuses(w->Answer_0, id@, "no stdin handle for '"@ + n + "'"@)
            }
            &&& runs && e.interactive && !e.stdin_closed && e.stdin_open && !a.eof && a.input is None
                ==> r is Answer && refuses(
                r->Answer_0,
                id@,
                "either 'input' or 'eof' must be provided"@,
            )
        }),
{
    reveal_strlit(
        "' was not started with interactive mode (use --interactive or interactive = true in Psyfile)",
    );
    reveal_strlit("' was not started with interactive mode");
    let n = a.name@;
    let long = "process '"@ + n
        + "' was not started with interactive mode (use --interactive or interactive = true in Psyfile)"@;
    let short = "process '"@ + n + "' was not started with interactive mode"@;
    assert(long.subrange(0, short.len() as int) =~= short);
}

/// Why a process is not run: the root shuts down, the name is not valid, the Psyfile cannot
/// be read, or there is nothing to run.
pub proof fn lemma_run_is_refused(
    root: SharedRoot,
    id: &str,
    a: RunArgs,
    psyfile: Result<Option<Psyfile>, String>,
    r: RunStep,
)
    requires
        call_ensures(SharedRoot::begin_run, (&root, id, &Some(a), &psyfile), r),
    ensures
        root@.shutting_down ==> r is Answer && refuses(
            r->Answer_0,
            id@,
            "server is shutting down"@,
        ),
        !root@.shutting_down && !process::valid_name(a.name@) ==> r is Answer && refuses(
            r->Answer_0,
            id@,
            "invalid name: must match [a-zA-Z0-9][a-zA-Z0-9_-]{0,62}"@,
        ),
        !root@.shutting_down && process::valid_name(a.name@) && a.command@.len() == 0 ==> {
            &&& psyfile matches Err(e) ==> r is Answer && refuses(
                r->Answer_0,
                id@,
                "Psyfile error: "@ + e@,
            )
            &&& psyfile matches Ok(None) ==> r is Answer && refuses(
                r->Answer_0,
                id@,
                "no command provided for ad-hoc process '"@ + a.name@ + "'"@,
            )
        },
{
}

/// Why a root does not register below another.
pub proof fn lemma_registration_is_refused(
    root: &mut SharedRoot,
    id: &str,
    a: RegisterSubrootArgs,
    ancestors: Vec<u32>,
    now: Timestamp,
    r: Response,
)
    requires
        call_ensures(SharedRoot::register_subroot, (root, id, &Some(a), &ancestors, now), r),
    ensures
        ({
            let known = old(root)@.table.dom().contains(a.name@);
            let e = old(root)@.table[a.name@];
            let named = process::valid_name(a.name@);
            let below = ancestors@.contains(old(root)@.psy_root_pid);
            &&& !named ==> refuses(r, id@, "invalid sub-root unit name '"@ + a.name@ + "'"@)
            &&& named && a.socket_path@.len() == 0 ==> refuses(
                r,
                id@,
                "sub-root socket_path must not be empty"@,
            )
            &&& named && a.socket_path@.len() > 0 && !below ==> refuses(
                r,
                id@,
                "sub-root pid "@ + text::decimal(a.pid as nat)
                    + " is not a descendant of parent psy pid "@ + text::decimal(
                    old(root)@.psy_root_pid as nat,
                ),
            )
            &&& named && a.socket_path@.len() > 0 && below && known && !e.sub_root ==> refuses(
                r,
                id@,
                "unit '"@ + a.name@ + "' was not started as a sub-root"@,
            )
            &&& named && a.socket_path@.len() > 0 && below && known && e.sub_root && e.pid != Some(
                a.pid,
            ) ==> refuses(
                r,
                id@,
                "sub-root pid "@ + text::decimal(a.pid as nat)
                    + " does not match spawned child of '"@ + a.name@ + "'"@,
            )
            &&& r.ok ==> r.data is Some && json::member(json::model(r.data->0), "name"@) == Some(
                Js::Text(a.name@),
            ) && json::member(json::model(r.data->0), "status"@) == Some(Js::Text("registered"@))
        }),
{
    reveal_strlit("name");
    reveal_strlit("status");
    assert("name"@.len() == 4 && "status"@.len() == 6);
    let s = seq![("name"@, Js::Text(a.name@)), ("status"@, Js::Text("registered"@))];
    fields::lemma_field(s, 0);
    fields::lemma_field(s, 1);
}

} // verus!
