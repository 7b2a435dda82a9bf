//! Questions about processes: the list, the logs, the runs.
use crate::logs;
use crate::logs::Query;
use crate::pattern;
use crate::process;
use crate::process::{EntryView, ProcessInfoView, RunInfoView};
use crate::protocol::{HistoryArgs, HistoryResponse, LogsArgs, ProcessInfo, PsResponse, Response, RunInfo};
use crate::psyfile::Psyfile;
use crate::ring_buffer;
use crate::ring_buffer::{LineView, LogLine};
use crate::root;
use crate::root::{RootView, SharedRoot};
use crate::root::run;
use crate::text;
use crate::time;
use crate::time::Timestamp;
use vstd::prelude::*;

verus! {

/// Whether a name is that of a template.
pub open spec fn names_template(
    psyfile: Result<Option<Psyfile>, String>,
    name: Seq<char>,
) -> bool {
    run::unit_named(psyfile, name) matches Some(u) && !u.singleton
}

/// Tests whether a name is that of a template.
pub fn is_template(psyfile: &Result<Option<Psyfile>, String>, name: &str) -> (r: bool)
    ensures
        r == names_template(*psyfile, name@),
{
    match psyfile {
        Ok(Some(p)) => match p.units.get(name) {
            Some(u) => !u.singleton,
            None => false,
        },
        _ => false,
    }
}

// ---------------------------------------------------------------------------
// The list
// ---------------------------------------------------------------------------

/// What is reported of some processes.
pub open spec fn reports(s: Seq<ProcessInfo>) -> Seq<ProcessInfoView> {
    s.map_values(|p: ProcessInfo| p@)
}

/// What is reported of the processes with the given names.
pub open spec fn ps_answer(r: RootView, names: Seq<Seq<char>>, now: Timestamp) -> Seq<
    ProcessInfoView,
> {
    names.map_values(|n: Seq<char>| process::ps_report(r.table[n], now))
}

impl SharedRoot {
    /// Lists the processes at a given time.
    pub fn handle_ps_at(&self, now: &Timestamp) -> (r: PsResponse)
        ensures
            reports(r.processes@) == ps_answer(self@, self.names(), *now),
    {
        let n = self.process_count();
        let mut out: Vec<ProcessInfo> = Vec::new();
        let mut i: usize = 0;
        while i < n
            invariant
                i <= n,
                n == self.names().len(),
                out@.len() == i,
                forall|j: int|
                    0 <= j < i ==> (#[trigger] out@[j])@ == process::ps_report(
                        self@.table[self.names()[j]],
                        *now,
                    ),
            decreases n - i,
        {
            out.push(self.nth(i).to_ps_entry_at(now));
            i += 1;
        }
        proof {
            assert(reports(out@) =~= ps_answer(self@, self.names(), *now));
        }
        PsResponse { processes: out }
    }

    /// Lists the processes now.
    pub fn handle_ps(&self) -> (r: PsResponse)
        ensures
            exists|now: Timestamp|
                reports(r.processes@) == #[trigger] ps_answer(self@, self.names(), now),
    {
        let now = time::now();
        self.handle_ps_at(&now)
    }
}

// ---------------------------------------------------------------------------
// Logs
// ---------------------------------------------------------------------------

/// The lines of the instances of a template that answer a question, each marked
/// with its instance.
pub open spec fn instance_lines(
    r: RootView,
    names: Seq<Seq<char>>,
    template: Seq<char>,
    q: Query,
) -> Seq<LineView>
    decreases names.len(),
{
    if names.len() == 0 {
        Seq::empty()
    } else {
        let before = instance_lines(r, names.drop_last(), template, q);
        let name = names.last();
        if run::is_instance(template, name) {
            before + logs::run_lines(
                r.table[name].stdout,
                r.table[name].stderr,
                q,
            ).map_values(|l: LineView| logs::marked_line(name, l))
        } else {
            before
        }
    }
}

/// The lines that answer a question about a log, or what is wrong with it. A
/// question about a template is about all its instances.
pub open spec fn logs_answer(
    r: RootView,
    names: Seq<Seq<char>>,
    args: Option<LogsArgs>,
    psyfile: Result<Option<Psyfile>, String>,
) -> Result<Seq<LineView>, Seq<char>> {
    match args {
        None => Err("invalid or missing logs args"@),
        Some(a) => match (
            logs::bound_of("since"@, text::opt_text(a.since)),
            logs::bound_of("until"@, text::opt_text(a.until)),
        ) {
            (Err(e), _) => Err(e),
            (Ok(_), Err(e)) => Err(e),
            (Ok(since), Ok(until)) => {
                let q = logs::query(a, since, until);
                if pattern::complaint(q.grep) is Some {
                    Err(pattern::complaint(q.grep)->0)
                } else if names_template(psyfile, a.name@) {
                    Ok(
                        ring_buffer::tail_of(
                            logs::time_sorted(instance_lines(r, names, a.name@, q)),
                            a.tail,
                        ),
                    )
                } else if !r.table.dom().contains(a.name@) {
                    Err(root::not_found(a.name@))
                } else {
                    logs::entry_answer(r.table[a.name@], a.previous, a.run, q)
                }
            },
        },
    }
}

impl SharedRoot {
    fn collect_instances(
        &self,
        a: &LogsArgs,
        since: Option<Timestamp>,
        until: Option<Timestamp>,
    ) -> (r: Vec<LogLine>)
        ensures
            ring_buffer::lines_view(r@) == instance_lines(
                self@,
                self.names(),
                a.name@,
                logs::query(*a, since, until),
            ),
    {
        let ghost q = logs::query(*a, since, until);
        let filter = logs::effective_stream(a.stream, a.probe);
        let prefix = text::concat2(a.name.as_str(), ".");
        let n = self.process_count();
        let mut out: Vec<LogLine> = Vec::new();
        let mut i: usize = 0;
        proof {
            assert(ring_buffer::lines_view(out@) =~= instance_lines(
                self@,
                self.names().take(0),
                a.name@,
                q,
            ));
        }
        while i < n
            invariant
                i <= n,
                n == self.names().len(),
                q == logs::query(*a, since, until),
                filter == q.filter,
                prefix@ == a.name@ + "."@,
                ring_buffer::lines_view(out@) == instance_lines(
                    self@,
                    self.names().take(i as int),
                    a.name@,
                    q,
                ),
            decreases n - i,
        {
            let name = self.nth_name(i);
            let e = self.nth(i);
            proof {
                assert(self.names().take(i + 1).drop_last() =~= self.names().take(i as int));
                assert(self.names().take(i + 1).last() == name@);
            }
            if text::begins(name.as_str(), prefix.as_str()) {
                let lines = logs::gather(
                    &e.stdout_buf,
                    &e.stderr_buf,
                    filter,
                    since,
                    until,
                    &a.grep,
                );
                proof {
                    assert(ring_buffer::lines_view(lines@) =~= logs::run_lines(
                        e@.stdout,
                        e@.stderr,
                        q,
                    ));
                }
                let marked = logs::mark_lines(name.as_str(), lines);
                logs::append_lines(&mut out, marked);
            }
            i += 1;
        }
        proof {
            assert(self.names().take(n as int) =~= self.names());
        }
        out
    }

    /// Collects the lines that answer a question about a log.
    pub fn collect_logs(
        &self,
        args: &Option<LogsArgs>,
        psyfile: &Result<Option<Psyfile>, String>,
    ) -> (r: Result<Vec<LogLine>, String>)
        ensures
            match r {
                Ok(l) => logs_answer(self@, self.names(), *args, *psyfile) == Ok::<
                    Seq<LineView>,
                    Seq<char>,
                >(ring_buffer::lines_view(l@)),
                Err(e) => logs_answer(self@, self.names(), *args, *psyfile) == Err::<
                    Seq<LineView>,
                    Seq<char>,
                >(e@),
            },
    {
        let a = match args {
            Some(a) => a,
            None => {
                return Err(text::copy("invalid or missing logs args"));
            },
        };
        let since = match logs::parse_bound("since", &a.since) {
            Ok(t) => t,
            Err(e) => {
                return Err(e);
            },
        };
        let until = match logs::parse_bound("until", &a.until) {
            Ok(t) => t,
            Err(e) => {
                return Err(e);
            },
        };
        if let Err(e) = pattern::check(&a.grep) {
            return Err(e);
        }
        if is_template(psyfile, a.name.as_str()) {
            let all = self.collect_instances(a, since, until);
            return Ok(logs::arrange(all, a.tail));
        }
        match self.entry(a.name.as_str()) {
            Some(e) => logs::entry_lines(e, a, since, until),
            None => Err(text::concat3("process '", a.name.as_str(), "' not found")),
        }
    }

    /// Answers a question about a log.
    pub fn handle_logs(
        &self,
        id: &str,
        args: &Option<LogsArgs>,
        psyfile: &Result<Option<Psyfile>, String>,
    ) -> (r: Response)
        ensures
            match logs_answer(self@, self.names(), *args, *psyfile) {
                Ok(l) => root::is_success(r, id@, logs::lines_json(l)),
                Err(e) => root::is_error(r, id@, e),
            },
    {
        match self.collect_logs(args, psyfile) {
            Ok(l) => Response::ok(id, Some(logs::lines_value(&l))),
            Err(e) => Response::err(id, e.as_str()),
        }
    }

    /// Begins to follow a log: the lines that are there already, or an error.
    pub fn begin_follow(&self, id: &str, args: &Option<LogsArgs>) -> (r: Result<
        Vec<LogLine>,
        Response,
    >)
        ensures
            match follow_answer(self@, *args) {
                Ok(l) => r matches Ok(lines) && ring_buffer::lines_view(lines@) == l,
                Err(e) => r matches Err(a) && root::is_error(a, id@, e),
            },
    {
        let a = match args {
            Some(a) => a,
            None => {
                return Err(Response::err(id, "invalid or missing logs args"));
            },
        };
        if let Err(e) = pattern::check(&a.grep) {
            return Err(Response::err(id, e.as_str()));
        }
        let since = logs::follow_since(&a.since);
        match self.entry(a.name.as_str()) {
            Some(e) => Ok(logs::follow_backlog(e, a, since)),
            None => {
                let m = text::concat3("process '", a.name.as_str(), "' not found");
                Err(Response::err(id, m.as_str()))
            },
        }
    }
}

/// The question about a log, where one since the last request asks for what came
/// after that.
pub open spec fn since_asked(r: RootView, name: Seq<char>, since: Option<Seq<char>>) -> Option<
    Seq<char>,
> {
    match since {
        Some(s) => if s != "last"@ {
            Some(s)
        } else if r.logs_asked.dom().contains(name) {
            Some(time::rfc3339(r.logs_asked[name].seconds(), r.logs_asked[name].subsec()))
        } else {
            None
        },
        None => None,
    }
}

impl SharedRoot {
    /// Notes that a log is asked for, and settles a question about what is new since
    /// the last request.
    pub fn note_logs_asked(&mut self, a: LogsArgs, now: Timestamp) -> (r: LogsArgs)
        ensures
            r == (LogsArgs { since: r.since, ..a }),
            text::opt_text(r.since) == since_asked(old(self)@, a.name@, text::opt_text(a.since)),
            final(self)@ == (RootView {
                logs_asked: old(self)@.logs_asked.insert(a.name@, now),
                ..old(self)@
            }),
            final(self).names() == old(self).names(),
    {
        let last = match self.logs_asked.get(a.name.as_str()) {
            Some(t) => Some(t.to_rfc3339()),
            None => None,
        };
        self.logs_asked.insert(text::copy(a.name.as_str()), now);
        let since = match a.since {
            Some(s) => if text::same(s.as_str(), "last") {
                last
            } else {
                Some(s)
            },
            None => None,
        };
        LogsArgs { since, ..a }
    }
}

/// After a request, one for what is new since the last request asks for what came
/// since then.
pub proof fn lemma_since_last(r: RootView, name: Seq<char>, now: Timestamp)
    ensures
        since_asked(
            RootView { logs_asked: r.logs_asked.insert(name, now), ..r },
            name,
            Some("last"@),
        ) == Some(time::rfc3339(now.seconds(), now.subsec())),
{
}

/// The lines that a client that follows a log gets first, or what is wrong.
pub open spec fn follow_answer(r: RootView, args: Option<LogsArgs>) -> Result<
    Seq<LineView>,
    Seq<char>,
> {
    match args {
        None => Err("invalid or missing logs args"@),
        Some(a) => if pattern::complaint(text::opt_text(a.grep)) is Some {
            Err(pattern::complaint(text::opt_text(a.grep))->0)
        } else if !r.table.dom().contains(a.name@) {
            Err(root::not_found(a.name@))
        } else {
            Ok(
                ring_buffer::tail_of(
                    logs::time_sorted(
                        logs::run_lines(
                            r.table[a.name@].stdout,
                            r.table[a.name@].stderr,
                            (Query {
                                filter: a.stream,
                                since: logs::follow_since_of(text::opt_text(a.since)),
                                until: None,
                                grep: text::opt_text(a.grep),
                                tail: None,
                            }),
                        ),
                    ),
                    a.tail,
                ),
            )
        },
    }
}

// ---------------------------------------------------------------------------
// Runs
// ---------------------------------------------------------------------------

/// What is reported of some runs.
pub open spec fn run_reports(s: Seq<RunInfo>) -> Seq<RunInfoView> {
    s.map_values(|r: RunInfo| r@)
}

/// What is reported of the runs of a process: the past ones, oldest first, and
/// the current one.
pub open spec fn history_of(e: EntryView, now: Timestamp) -> Seq<RunInfoView> {
    e.run_history.map_values(|r: process::RunView| process::run_report(r, now)).push(
        process::current_report(e, now),
    )
}

impl SharedRoot {
    /// Answers a question about the runs of a process, at a given time.
    pub fn handle_history_at(&self, id: &str, args: &Option<HistoryArgs>, now: &Timestamp) -> (r:
        Result<HistoryResponse, Response>)
        ensures
            match args {
                None => r matches Err(a) && root::is_error(
                    a,
                    id@,
                    "invalid or missing history args"@,
                ),
                Some(h) => if self@.table.dom().contains(h.name@) {
                    r matches Ok(a) && a.name@ == h.name@ && run_reports(a.runs@) == history_of(
                        self@.table[h.name@],
                        *now,
                    )
                } else {
                    r matches Err(a) && root::is_error(a, id@, root::not_found(h.name@))
                },
            },
    {
        let h = match args {
            Some(h) => h,
            None => {
                return Err(Response::err(id, "invalid or missing history args"));
            },
        };
        let e = match self.entry(h.name.as_str()) {
            Some(e) => e,
            None => {
                let m = text::concat3("process '", h.name.as_str(), "' not found");
                return Err(Response::err(id, m.as_str()));
            },
        };
        let mut runs: Vec<RunInfo> = Vec::new();
        let mut i: usize = 0;
        while i < e.run_history.len()
            invariant
                i <= e.run_history.len(),
                runs@.len() == i,
                forall|j: int|
                    0 <= j < i ==> (#[trigger] runs@[j])@ == process::run_report(
                        e.run_history@[j]@,
                        *now,
                    ),
            decreases e.run_history.len() - i,
        {
            runs.push(e.run_history[i].to_run_info_at(now));
            i += 1;
        }
        runs.push(e.current_run_info_at(now));
        proof {
            assert(run_reports(runs@) =~= history_of(e@, *now));
        }
        Ok(HistoryResponse { name: text::copy(h.name.as_str()), runs })
    }

    /// Answers a question about the runs of a process now.
    pub fn handle_history(&self, id: &str, args: &Option<HistoryArgs>) -> (r: Result<
        HistoryResponse,
        Response,
    >)
        ensures
            match args {
                None => r matches Err(a) && root::is_error(
                    a,
                    id@,
                    "invalid or missing history args"@,
                ),
                Some(h) => if self@.table.dom().contains(h.name@) {
                    r matches Ok(a) && a.name@ == h.name@ && exists|now: Timestamp|
                        run_reports(a.runs@) == #[trigger] history_of(self@.table[h.name@], now)
                } else {
                    r matches Err(a) && root::is_error(a, id@, root::not_found(h.name@))
                },
            },
    {
        let now = time::now();
        self.handle_history_at(id, args, &now)
    }
}

/// The runs of a process are listed in the order of their numbers, each number
/// once, the current run last.
pub proof fn lemma_history_order(e: EntryView, now: Timestamp)
    requires
        process::numbered(e),
    ensures
        history_of(e, now).len() == e.run_history.len() + 1,
        history_of(e, now).last().run_id == e.current_run_id,
        forall|i: int, j: int|
            0 <= i < j < history_of(e, now).len() ==> (#[trigger] history_of(e, now)[i]).run_id < (
            #[trigger] history_of(e, now)[j]).run_id,
{
    let h = history_of(e, now);
    assert forall|i: int, j: int| 0 <= i < j < h.len() implies (#[trigger] h[i]).run_id < (
    #[trigger] h[j]).run_id by {
        assert(h[i].run_id == e.run_history[i].run_id);
        if j < e.run_history.len() {
            assert(h[j].run_id == e.run_history[j].run_id);
        }
    }
}

/// In a process whose runs are numbered, the log of a past run is found under its
/// number, and that of the run before the current one as the previous one.
pub proof fn lemma_past_log(e: EntryView, i: int)
    requires
        process::numbered(e),
        0 <= i < e.run_history.len(),
    ensures
        logs::asked_run(e, false, Some(e.run_history[i].run_id)) == Ok::<
            (process::LogView, process::LogView),
            Seq<char>,
        >((e.run_history[i].stdout, e.run_history[i].stderr)),
        logs::asked_run(e, true, None) == Ok::<(process::LogView, process::LogView), Seq<char>>(
            (e.run_history.last().stdout, e.run_history.last().stderr),
        ),
{
    lemma_find_run(e.run_history, i);
}

proof fn lemma_find_run(runs: Seq<process::RunView>, i: int)
    requires
        0 <= i < runs.len(),
        forall|a: int, b: int|
            0 <= a < b < runs.len() ==> (#[trigger] runs[a]).run_id < (#[trigger] runs[b]).run_id,
    ensures
        logs::find_run(runs, runs[i].run_id) == Some(runs[i]),
    decreases runs.len(),
{
    if i > 0 {
        assert(runs[0].run_id < runs[i].run_id);
        let rest = runs.skip(1);
        assert forall|a: int, b: int| 0 <= a < b < rest.len() implies (
        #[trigger] rest[a]).run_id < (#[trigger] rest[b]).run_id by {
            assert(rest[a] == runs[a + 1]);
            assert(rest[b] == runs[b + 1]);
        }
        lemma_find_run(rest, i - 1);
    }
}

} // verus!
