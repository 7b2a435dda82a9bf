//! Serving a root: which request is which, and how the root begins and ends.
use crate::names::NameMap;
use crate::process;
use crate::process::{EntryView, ProcessEntry};
use crate::protocol;
use crate::protocol::{Request, Response, RestartPolicy};
use crate::root;
use crate::root::SharedRoot;
use crate::text;
use crate::time::Timestamp;
use vstd::prelude::*;

verus! {

/// What a request asks for.
#[derive(Clone, Copy, Debug, PartialEq, Eq, Structural)]
pub enum Route {
    Run,
    Ps,
    Logs,
    /// The log as it grows; the connection stays open.
    LogsFollow,
    Stop,
    Restart,
    Down,
    History,
    Send,
    SendWait,
    Clean,
    /// A root below this one tells its socket.
    RegisterSubroot,
}

/// What a command asks for, where it is known.
pub open spec fn route_of(cmd: Seq<char>) -> Option<Route> {
    if cmd == protocol::CMD_RUN@ {
        Some(Route::Run)
    } else if cmd == protocol::CMD_PS@ {
        Some(Route::Ps)
    } else if cmd == protocol::CMD_LOGS@ {
        Some(Route::Logs)
    } else if cmd == protocol::CMD_LOGS_FOLLOW@ {
        Some(Route::LogsFollow)
    } else if cmd == protocol::CMD_STOP@ {
        Some(Route::Stop)
    } else if cmd == protocol::CMD_RESTART@ {
        Some(Route::Restart)
    } else if cmd == protocol::CMD_DOWN@ {
        Some(Route::Down)
    } else if cmd == protocol::CMD_HISTORY@ {
        Some(Route::History)
    } else if cmd == protocol::CMD_SEND@ {
        Some(Route::Send)
    } else if cmd == protocol::CMD_SEND_WAIT@ {
        Some(Route::SendWait)
    } else if cmd == protocol::CMD_CLEAN@ {
        Some(Route::Clean)
    } else if cmd == protocol::CMD_REGISTER_SUBROOT@ {
        Some(Route::RegisterSubroot)
    } else {
        None
    }
}

/// Tells what a request asks for. One that is not known is answered at once.
pub fn handle_request(req: &Request) -> (r: Result<Route, Response>)
    ensures
        match route_of(req.cmd@) {
            Some(x) => r matches Ok(y) && y == x,
            None => r matches Err(a) && root::is_error(
                a,
                req.id@,
                "unknown command: "@ + req.cmd@,
            ),
        },
{
    let cmd = req.cmd.as_str();
    if text::same(cmd, protocol::CMD_RUN) {
        Ok(Route::Run)
    } else if text::same(cmd, protocol::CMD_PS) {
        Ok(Route::Ps)
    } else if text::same(cmd, protocol::CMD_LOGS) {
        Ok(Route::Logs)
    } else if text::same(cmd, protocol::CMD_LOGS_FOLLOW) {
        Ok(Route::LogsFollow)
    } else if text::same(cmd, protocol::CMD_STOP) {
        Ok(Route::Stop)
    } else if text::same(cmd, protocol::CMD_RESTART) {
        Ok(Route::Restart)
    } else if text::same(cmd, protocol::CMD_DOWN) {
        Ok(Route::Down)
    } else if text::same(cmd, protocol::CMD_HISTORY) {
        Ok(Route::History)
    } else if text::same(cmd, protocol::CMD_SEND) {
        Ok(Route::Send)
    } else if text::same(cmd, protocol::CMD_SEND_WAIT) {
        Ok(Route::SendWait)
    } else if text::same(cmd, protocol::CMD_CLEAN) {
        Ok(Route::Clean)
    } else if text::same(cmd, protocol::CMD_REGISTER_SUBROOT) {
        Ok(Route::RegisterSubroot)
    } else {
        let m = text::concat2("unknown command: ", cmd);
        Err(Response::err(req.id.as_str(), m.as_str()))
    }
}

/// The answer to a line that is no request.
pub fn not_a_request(error: &str) -> (r: Response)
    ensures
        root::is_error(r, ""@, "invalid JSON: "@ + error@),
{
    let m = text::concat2("invalid JSON: ", error);
    Response::err("", m.as_str())
}

/// Whether a line holds a request at all.
pub fn is_blank(line: &str) -> (r: bool)
    ensures
        r == (text::trimmed(line@).len() == 0),
{
    let t = text::trim(line);
    text::chars_of(t.as_str()).len() == 0
}

// ---------------------------------------------------------------------------
// The main process
// ---------------------------------------------------------------------------

/// The command of the main process: the one that is given, else the user's shell,
/// else the usual shell.
pub open spec fn main_command(
    given: Option<Seq<Seq<char>>>,
    shell: Option<Seq<char>>,
    usual: Seq<char>,
) -> Seq<Seq<char>> {
    match (given, shell) {
        (Some(c), _) => c,
        (None, Some(s)) => seq![s],
        (None, None) => seq![usual],
    }
}

/// Picks the command of the main process.
pub fn pick_main_command(given: Option<Vec<String>>, shell: Option<String>, usual: &str) -> (r: Vec<
    String,
>)
    ensures
        text::texts(r@) == main_command(
            match given {
                Some(c) => Some(text::texts(c@)),
                None => None,
            },
            text::opt_text(shell),
            usual@,
        ),
{
    match given {
        Some(c) => c,
        None => {
            let word = match shell {
                Some(s) => s,
                None => text::copy(usual),
            };
            let ghost w = word@;
            let mut out: Vec<String> = Vec::new();
            out.push(word);
            proof {
                assert(text::texts(out@) =~= seq![w]);
            }
            out
        },
    }
}

/// The entry of the main process, before it is started.
pub open spec fn main_entry(command: Seq<Seq<char>>) -> EntryView {
    process::new_entry(
        "main"@,
        command,
        Map::<Seq<char>, Seq<char>>::empty(),
        RestartPolicy::No,
        true,
    )
}

/// Builds the entry of the main process.
pub fn prepare_main(command: Vec<String>) -> (r: ProcessEntry)
    ensures
        r@ == main_entry(text::texts(command@)),
{
    let env: NameMap<String> = NameMap::new();
    proof {
        assert(crate::psyfile::env_view(env) =~= Map::<Seq<char>, Seq<char>>::empty());
    }
    ProcessEntry::new(text::copy("main"), command, env, RestartPolicy::No, true)
}

impl SharedRoot {
    /// Notes that the main process has been started.
    pub fn commit_main(&mut self, e: ProcessEntry, pid: Option<u32>, now: Timestamp)
        ensures
            final(self)@ == root::with_entry(
                old(self)@,
                "main"@,
                process::started(e@, pid, now, false, false),
            ),
    {
        let mut e = e;
        e.mark_started(pid, now, false, false);
        self.add_entry(text::copy("main"), e);
    }
}

/// The message where a unit could not be started with the root.
pub fn boot_failure(unit: &str, answer: &Response) -> (r: Option<String>)
    ensures
        text::opt_text(r) == (if answer.ok {
            None
        } else {
            Some(
                "psy: failed to start unit '"@ + unit@ + "': "@ + match answer.error {
                    Some(e) => e@,
                    None => Seq::empty(),
                },
            )
        }),
{
    if answer.ok {
        return None;
    }
    let mut m = text::concat3("psy: failed to start unit '", unit, "': ");
    match &answer.error {
        Some(e) => {
            text::push_text(&mut m, e.as_str());
        },
        None => {
            proof {
                assert(m@ + Seq::<char>::empty() =~= m@);
            }
        },
    }
    Some(m)
}

/// Why a root ends.
#[derive(Clone, Copy, Debug, PartialEq, Eq, Structural)]
pub enum Ending {
    /// The main process has exited, or the root was told to go down.
    Exit(i32),
    Interrupted,
    Terminated,
}

/// The code that a root exits with: that of the main process, or 128 with the
/// number of the signal.
pub fn exit_code(e: Ending) -> (r: i32)
    ensures
        r == (match e {
            Ending::Exit(c) => c,
            Ending::Interrupted => 130,
            Ending::Terminated => 143,
        }),
{
    match e {
        Ending::Exit(c) => c,
        Ending::Interrupted => 130,
        Ending::Terminated => 143,
    }
}

} // verus!
