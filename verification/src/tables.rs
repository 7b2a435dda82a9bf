//! The tables that show processes and their runs.
use crate::names::NameMap;
use crate::protocol::{HistoryResponse, ProcessInfo, PsResponse, RestartPolicy, RunInfo};
use crate::text;
use vstd::prelude::*;

verus! {

// ---------------------------------------------------------------------------
// Cells
// ---------------------------------------------------------------------------

/// A number of seconds in hours, minutes and seconds, from the largest that it has.
pub open spec fn uptime_text(secs: u64) -> Seq<char> {
    if secs < 60 {
        text::decimal(secs as nat) + "s"@
    } else if secs < 3600 {
        text::decimal(secs as nat / 60) + "m "@ + text::decimal(secs as nat % 60) + "s"@
    } else {
        text::decimal(secs as nat / 3600) + "h "@ + text::decimal((secs as nat % 3600) / 60)
            + "m "@ + text::decimal(secs as nat % 60) + "s"@
    }
}

/// Writes a number of seconds in hours, minutes and seconds.
pub fn format_uptime(secs: u64) -> (r: String)
    ensures
        r@ == uptime_text(secs),
{
    if secs < 60 {
        return text::concat2(text::decimal_of(secs as u128).as_str(), "s");
    }
    if secs < 3600 {
        let mut out = text::concat2(text::decimal_of((secs / 60) as u128).as_str(), "m ");
        text::push_text(&mut out, text::decimal_of((secs % 60) as u128).as_str());
        text::push_text(&mut out, "s");
        return out;
    }
    let mut out = text::concat2(text::decimal_of((secs / 3600) as u128).as_str(), "h ");
    text::push_text(&mut out, text::decimal_of(((secs % 3600) / 60) as u128).as_str());
    text::push_text(&mut out, "m ");
    text::push_text(&mut out, text::decimal_of((secs % 60) as u128).as_str());
    text::push_text(&mut out, "s");
    out
}

/// A span of time, or a dash where it is not known.
pub open spec fn time_cell(secs: Option<u64>) -> Seq<char> {
    match secs {
        Some(s) => uptime_text(s),
        None => "-"@,
    }
}

fn time_of(secs: Option<u64>) -> (r: String)
    ensures
        r@ == time_cell(secs),
{
    match secs {
        Some(s) => format_uptime(s),
        None => text::copy("-"),
    }
}

/// How a process ended: its signal, else its exit code, else a dash.
pub open spec fn exit_cell(signal: Option<Seq<char>>, code: Option<i32>) -> Seq<char> {
    match (signal, code) {
        (Some(s), _) => s,
        (None, Some(c)) => text::signed_decimal(c as int),
        (None, None) => "-"@,
    }
}

fn exit_of(signal: &Option<String>, code: Option<i32>) -> (r: String)
    ensures
        r@ == exit_cell(text::opt_text(*signal), code),
{
    match signal {
        Some(s) => text::copy(s.as_str()),
        None => match code {
            Some(c) => text::signed_decimal_of(c as i64),
            None => text::copy("-"),
        },
    }
}

/// A text, or a dash where there is none.
pub open spec fn text_cell(t: Option<Seq<char>>) -> Seq<char> {
    match t {
        Some(s) => s,
        None => "-"@,
    }
}

fn text_of(t: &Option<String>) -> (r: String)
    ensures
        r@ == text_cell(text::opt_text(*t)),
{
    match t {
        Some(s) => text::copy(s.as_str()),
        None => text::copy("-"),
    }
}

/// The name of a restart policy.
pub open spec fn policy_text(p: RestartPolicy) -> Seq<char> {
    match p {
        RestartPolicy::No => "no"@,
        RestartPolicy::OnFailure => "on-failure"@,
        RestartPolicy::Always => "always"@,
    }
}

/// Names a restart policy.
pub fn policy_name(p: RestartPolicy) -> (r: &'static str)
    ensures
        r@ == policy_text(p),
{
    match p {
        RestartPolicy::No => "no",
        RestartPolicy::OnFailure => "on-failure",
        RestartPolicy::Always => "always",
    }
}

/// A port with its name.
pub open spec fn port_text(m: NameMap<u16>, name: Seq<char>) -> Seq<char> {
    name + "="@ + text::decimal(m@[name] as nat)
}

/// The ports of a process, or a dash where it has none.
pub open spec fn ports_cell(ports: Option<NameMap<u16>>) -> Seq<char> {
    match ports {
        Some(m) => if m.names().len() > 0 {
            text::joined(m.names().map_values(|n: Seq<char>| port_text(m, n)), ","@)
        } else {
            "-"@
        },
        None => "-"@,
    }
}

fn ports_of(ports: &Option<NameMap<u16>>) -> (r: String)
    ensures
        r@ == ports_cell(*ports),
{
    match ports {
        None => text::copy("-"),
        Some(m) => {
            let n = m.len();
            if n == 0 {
                return text::copy("-");
            }
            let mut parts: Vec<String> = Vec::new();
            let mut i: usize = 0;
            while i < n
                invariant
                    i <= n,
                    n == m.names().len(),
                    parts@.len() == i,
                    forall|j: int|
                        0 <= j < i ==> (#[trigger] parts@[j])@ == port_text(*m, m.names()[j]),
                decreases n - i,
            {
                let mut part = text::concat2(m.name_at(i).as_str(), "=");
                text::push_text(&mut part, text::decimal_of(*m.value_at(i) as u128).as_str());
                parts.push(part);
                i += 1;
            }
            proof {
                assert(text::texts(parts@) =~= m.names().map_values(
                    |n: Seq<char>| port_text(*m, n),
                ));
            }
            text::join(&parts, ",")
        },
    }
}

/// A line of dashes.
pub open spec fn dashes(n: nat) -> Seq<char> {
    Seq::new(n, |i: int| '-')
}

fn push_dashes(out: &mut String, n: usize)
    ensures
        final(out)@ == old(out)@ + dashes(n as nat),
{
    let ghost start = out@;
    let mut i: usize = 0;
    proof {
        assert(out@ =~= start + dashes(0));
    }
    while i < n
        invariant
            i <= n,
            out@ == start + dashes(i as nat),
        decreases n - i,
    {
        out.push('-');
        i += 1;
        proof {
            assert(dashes(i as nat) =~= dashes((i - 1) as nat).push('-'));
            assert(out@ =~= start + dashes(i as nat));
        }
    }
}

// ---------------------------------------------------------------------------
// Processes
// ---------------------------------------------------------------------------

/// The cells of a row of the table of processes.
pub ghost struct PsCells {
    pub name: Seq<char>,
    pub pid: Seq<char>,
    pub status: Seq<char>,
    pub ready: Seq<char>,
    pub exit: Seq<char>,
    pub uptime: Seq<char>,
    pub restarts: Seq<char>,
    pub restart: Seq<char>,
    pub ports: Seq<char>,
}

/// A row of the table of processes. The ports are only shown where some process
/// has any.
pub open spec fn ps_row(c: PsCells, with_ports: bool) -> Seq<char> {
    text::padded(c.name, 20) + " "@ + text::padded(c.pid, 8) + " "@ + text::padded(c.status, 10)
        + " "@ + text::padded(c.ready, 8) + " "@ + text::padded(c.exit, 8) + " "@ + text::padded(
        c.uptime,
        14,
    ) + " "@ + text::padded(c.restarts, 10) + " "@ + (if with_ports {
        text::padded(c.restart, 10) + " "@ + c.ports
    } else {
        c.restart
    }) + "\n"@
}

/// The head of the table of processes.
pub open spec fn ps_head() -> PsCells {
    PsCells {
        name: "NAME"@,
        pid: "PID"@,
        status: "STATUS"@,
        ready: "READY"@,
        exit: "EXIT"@,
        uptime: "UPTIME"@,
        restarts: "RESTARTS"@,
        restart: "RESTART"@,
        ports: "PORTS"@,
    }
}

/// What is shown of a process.
pub open spec fn ps_cells(p: ProcessInfo) -> PsCells {
    PsCells {
        name: p.name@,
        pid: match p.pid {
            Some(n) => text::decimal(n as nat),
            None => "-"@,
        },
        status: p.status@,
        ready: text_cell(text::opt_text(p.ready)),
        exit: exit_cell(text::opt_text(p.signal), p.exit_code),
        uptime: time_cell(p.uptime_secs),
        restarts: text::decimal(p.restarts as nat),
        restart: policy_text(p.restart_policy),
        ports: ports_cell(p.ports),
    }
}

/// Whether a process has ports.
pub open spec fn has_ports(p: ProcessInfo) -> bool {
    p.ports matches Some(m) && m.names().len() > 0
}

/// Whether some process has ports.
pub open spec fn any_ports(s: Seq<ProcessInfo>) -> bool {
    exists|i: int| 0 <= i < s.len() && has_ports(#[trigger] s[i])
}

/// The rows of some processes.
pub open spec fn ps_rows(s: Seq<ProcessInfo>, with_ports: bool) -> Seq<char>
    decreases s.len(),
{
    if s.len() == 0 {
        Seq::empty()
    } else {
        ps_rows(s.drop_last(), with_ports) + ps_row(ps_cells(s.last()), with_ports)
    }
}

/// The table of processes.
pub open spec fn ps_table(s: Seq<ProcessInfo>) -> Seq<char> {
    if s.len() == 0 {
        "No processes running"@
    } else {
        ps_row(ps_head(), any_ports(s)) + dashes(86) + "\n"@ + ps_rows(s, any_ports(s))
    }
}

fn push_row(
    out: &mut String,
    name: &str,
    pid: &str,
    status: &str,
    ready: &str,
    exit: &str,
    uptime: &str,
    restarts: &str,
    restart: &str,
    ports: &str,
    with_ports: bool,
)
    ensures
        final(out)@ == old(out)@ + ps_row(
            PsCells {
                name: name@,
                pid: pid@,
                status: status@,
                ready: ready@,
                exit: exit@,
                uptime: uptime@,
                restarts: restarts@,
                restart: restart@,
                ports: ports@,
            },
            with_ports,
        ),
{
    let ghost start = out@;
    let mut row = String::new();
    proof {
        assert(row@ =~= Seq::<char>::empty());
        assert(Seq::<char>::empty() + text::padded(name@, 20) =~= text::padded(name@, 20));
    }
    text::push_padded(&mut row, name, 20);
    text::push_text(&mut row, " ");
    text::push_padded(&mut row, pid, 8);
    text::push_text(&mut row, " ");
    text::push_padded(&mut row, status, 10);
    text::push_text(&mut row, " ");
    text::push_padded(&mut row, ready, 8);
    text::push_text(&mut row, " ");
    text::push_padded(&mut row, exit, 8);
    text::push_text(&mut row, " ");
    text::push_padded(&mut row, uptime, 14);
    text::push_text(&mut row, " ");
    text::push_padded(&mut row, restarts, 10);
    text::push_text(&mut row, " ");
    let ghost head = row@;
    if with_ports {
        text::push_padded(&mut row, restart, 10);
        text::push_text(&mut row, " ");
        text::push_text(&mut row, ports);
        proof {
            assert(row@ =~= head + (text::padded(restart@, 10) + " "@ + ports@));
        }
    } else {
        text::push_text(&mut row, restart);
    }
    text::push_text(&mut row, "\n");
    text::push_text(out, row.as_str());
}

fn find_ports(s: &Vec<ProcessInfo>) -> (r: bool)
    ensures
        r == any_ports(s@),
{
    let mut i: usize = 0;
    while i < s.len()
        invariant
            i <= s.len(),
            forall|j: int| 0 <= j < i ==> !has_ports(#[trigger] s@[j]),
        decreases s.len() - i,
    {
        match &s[i].ports {
            Some(m) => {
                if m.len() > 0 {
                    proof {
                        assert(has_ports(s@[i as int]));
                    }
                    return true;
                }
            },
            None => {},
        }
        i += 1;
    }
    false
}

/// Lays out the table of processes.
pub fn format_ps_table(ps: &PsResponse) -> (r: String)
    ensures
        r@ == ps_table(ps.processes@),
{
    let s = &ps.processes;
    if s.len() == 0 {
        return text::copy("No processes running");
    }
    let with_ports = find_ports(s);
    let mut out = String::new();
    proof {
        assert(out@ =~= Seq::<char>::empty());
        assert(Seq::<char>::empty() + ps_row(ps_head(), with_ports) =~= ps_row(
            ps_head(),
            with_ports,
        ));
    }
    push_row(
        &mut out,
        "NAME",
        "PID",
        "STATUS",
        "READY",
        "EXIT",
        "UPTIME",
        "RESTARTS",
        "RESTART",
        "PORTS",
        with_ports,
    );
    push_dashes(&mut out, 86);
    text::push_text(&mut out, "\n");
    let ghost head = out@;
    let mut i: usize = 0;
    proof {
        assert(s@.take(0) =~= Seq::<ProcessInfo>::empty());
        assert(out@ =~= head + ps_rows(s@.take(0), with_ports));
    }
    while i < s.len()
        invariant
            i <= s.len(),
            s@ == ps.processes@,
            out@ == head + ps_rows(s@.take(i as int), with_ports),
        decreases s.len() - i,
    {
        let p = &s[i];
        let pid = match p.pid {
            Some(n) => text::decimal_of(n as u128),
            None => text::copy("-"),
        };
        push_row(
            &mut out,
            p.name.as_str(),
            pid.as_str(),
            p.status.as_str(),
            text_of(&p.ready).as_str(),
            exit_of(&p.signal, p.exit_code).as_str(),
            time_of(p.uptime_secs).as_str(),
            text::decimal_of(p.restarts as u128).as_str(),
            policy_name(p.restart_policy),
            ports_of(&p.ports).as_str(),
            with_ports,
        );
        proof {
            let next = s@.take(i + 1);
            assert(next.drop_last() =~= s@.take(i as int));
            assert(next.last() == *p);
            assert(out@ =~= head + (ps_rows(s@.take(i as int), with_ports) + ps_row(
                ps_cells(*p),
                with_ports,
            )));
        }
        i += 1;
    }
    proof {
        assert(s@.take(s@.len() as int) =~= s@);
    }
    out
}

// ---------------------------------------------------------------------------
// Runs
// ---------------------------------------------------------------------------

/// A row of the table of runs.
pub open spec fn history_row(
    run: Seq<char>,
    status: Seq<char>,
    exit: Seq<char>,
    started: Seq<char>,
    duration: Seq<char>,
) -> Seq<char> {
    text::padded(run, 6) + " "@ + text::padded(status, 10) + " "@ + text::padded(exit, 8) + " "@
        + text::padded(started, 28) + " "@ + duration + "\n"@
}

/// What is shown of a run.
pub open spec fn run_row(r: RunInfo) -> Seq<char> {
    history_row(
        text::decimal(r.run_id as nat),
        r.status@,
        exit_cell(text::opt_text(r.signal), r.exit_code),
        text_cell(text::opt_text(r.started_at)),
        time_cell(r.duration_secs),
    )
}

/// The rows of some runs.
pub open spec fn history_rows(s: Seq<RunInfo>) -> Seq<char>
    decreases s.len(),
{
    if s.len() == 0 {
        Seq::empty()
    } else {
        history_rows(s.drop_last()) + run_row(s.last())
    }
}

/// The table of the runs of a process.
pub open spec fn history_table(name: Seq<char>, s: Seq<RunInfo>) -> Seq<char> {
    if s.len() == 0 {
        "No runs recorded for '"@ + name + "'"@
    } else {
        history_row("RUN"@, "STATUS"@, "EXIT"@, "STARTED"@, "DURATION"@) + dashes(68) + "\n"@
            + history_rows(s)
    }
}

fn push_history_row(
    out: &mut String,
    run: &str,
    status: &str,
    exit: &str,
    started: &str,
    duration: &str,
)
    ensures
        final(out)@ == old(out)@ + history_row(run@, status@, exit@, started@, duration@),
{
    let mut row = String::new();
    proof {
        assert(row@ =~= Seq::<char>::empty());
        assert(Seq::<char>::empty() + text::padded(run@, 6) =~= text::padded(run@, 6));
    }
    text::push_padded(&mut row, run, 6);
    text::push_text(&mut row, " ");
    text::push_padded(&mut row, status, 10);
    text::push_text(&mut row, " ");
    text::push_padded(&mut row, exit, 8);
    text::push_text(&mut row, " ");
    text::push_padded(&mut row, started, 28);
    text::push_text(&mut row, " ");
    text::push_text(&mut row, duration);
    text::push_text(&mut row, "\n");
    text::push_text(out, row.as_str());
}

/// Lays out the table of the runs of a process.
pub fn format_history_table(history: &HistoryResponse) -> (r: String)
    ensures
        r@ == history_table(history.name@, history.runs@),
{
    let s = &history.runs;
    if s.len() == 0 {
        return text::concat3("No runs recorded for '", history.name.as_str(), "'");
    }
    let mut out = String::new();
    proof {
        let first = history_row("RUN"@, "STATUS"@, "EXIT"@, "STARTED"@, "DURATION"@);
        assert(out@ =~= Seq::<char>::empty());
        assert(Seq::<char>::empty() + first =~= first);
    }
    push_history_row(&mut out, "RUN", "STATUS", "EXIT", "STARTED", "DURATION");
    push_dashes(&mut out, 68);
    text::push_text(&mut out, "\n");
    let ghost head = out@;
    let mut i: usize = 0;
    proof {
        assert(s@.take(0) =~= Seq::<RunInfo>::empty());
        assert(out@ =~= head + history_rows(s@.take(0)));
    }
    while i < s.len()
        invariant
            i <= s.len(),
            s@ == history.runs@,
            out@ == head + history_rows(s@.take(i as int)),
        decreases s.len() - i,
    {
        let r = &s[i];
        push_history_row(
            &mut out,
            text::decimal_of(r.run_id as u128).as_str(),
            r.status.as_str(),
            exit_of(&r.signal, r.exit_code).as_str(),
            text_of(&r.started_at).as_str(),
            time_of(r.duration_secs).as_str(),
        );
        proof {
            let next = s@.take(i + 1);
            assert(next.drop_last() =~= s@.take(i as int));
            assert(next.last() == *r);
            assert(out@ =~= head + (history_rows(s@.take(i as int)) + run_row(*r)));
        }
        i += 1;
    }
    proof {
        assert(s@.take(s@.len() as int) =~= s@);
    }
    out
}

} // verus!
