//! How things are written for people, and how messages are told apart.
use crate::platform::System;
use crate::protocol::{HistoryResponse, ProcessInfo, PsResponse, RestartPolicy};
use crate::protocol::RunInfo;
use crate::ring_buffer::{LogLine, Stream};
use crate::shell;
use crate::tables;
use crate::text;
use vstd::prelude::*;

verus! {

// ---------------------------------------------------------------------------
// Texts
// ---------------------------------------------------------------------------

/// What is trimmed off both ends of a text is white space, and no more of it is left at
/// the ends.
pub proof fn lemma_trim(s: &str, r: String) -> (cut: (int, int))
    requires
        call_ensures(text::trim, (s,), r),
    ensures
        0 <= cut.0 <= cut.1 <= s@.len(),
        r@ == s@.subrange(cut.0, cut.1),
        forall|i: int| 0 <= i < cut.0 ==> text::is_space(#[trigger] s@[i]),
        forall|i: int| cut.1 <= i < s@.len() ==> text::is_space(#[trigger] s@[i]),
        r@.len() > 0 ==> !text::is_space(r@[0]) && !text::is_space(r@.last()),
{
    let a = lemma_trim_start(s@);
    let t = s@.skip(a);
    let b = lemma_trim_end(t);
    assert(t.take(b) =~= s@.subrange(a, a + b));
    assert forall|i: int| a + b <= i < s@.len() implies text::is_space(#[trigger] s@[i]) by {
        assert(t[i - a] == s@[i]);
    }
    if b > 0 {
        assert(r@[0] == t[0]);
    }
    (a, a + b)
}

proof fn lemma_trim_start(s: Seq<char>) -> (k: int)
    ensures
        0 <= k <= s.len(),
        text::trim_start(s) == s.skip(k),
        forall|i: int| 0 <= i < k ==> text::is_space(#[trigger] s[i]),
        k < s.len() ==> !text::is_space(s[k]),
    decreases s.len(),
{
    if s.len() > 0 && text::is_space(s[0]) {
        let rest = s.skip(1);
        let j = lemma_trim_start(rest);
        assert(rest.skip(j) =~= s.skip(j + 1));
        assert forall|i: int| 0 <= i < j + 1 implies text::is_space(#[trigger] s[i]) by {
            if i > 0 {
                assert(rest[i - 1] == s[i]);
            }
        }
        j + 1
    } else {
        assert(s.skip(0) =~= s);
        0
    }
}

proof fn lemma_trim_end(s: Seq<char>) -> (k: int)
    ensures
        0 <= k <= s.len(),
        text::trim_end(s) == s.take(k),
        forall|i: int| k <= i < s.len() ==> text::is_space(#[trigger] s[i]),
        k > 0 ==> !text::is_space(s[k - 1]),
    decreases s.len(),
{
    if s.len() > 0 && text::is_space(s.last()) {
        let rest = s.drop_last();
        let j = lemma_trim_end(rest);
        assert(rest.take(j) =~= s.take(j));
        assert forall|i: int| j <= i < s.len() implies text::is_space(#[trigger] s[i]) by {
            if i < rest.len() {
                assert(rest[i] == s[i]);
            }
        }
        j
    } else {
        assert(s.take(s.len() as int) =~= s);
        s.len() as int
    }
}

/// A number that is written is read as the same number, and one that is too large is not
/// read.
pub proof fn lemma_numbers(
    n: u128,
    written: String,
    chars: Vec<char>,
    a: Option<u64>,
    b: Option<u32>,
    c: Option<u16>,
)
    requires
        call_ensures(text::decimal_of, (n,), written),
        chars@ == written@,
        call_ensures(text::parse_u64, (&chars,), a),
        call_ensures(text::parse_u32, (&chars,), b),
        call_ensures(text::parse_u16, (&chars,), c),
    ensures
        n <= u64::MAX ==> a == Some(n as u64),
        n > u64::MAX ==> a is None,
        n <= u32::MAX ==> b == Some(n as u32),
        n > u32::MAX ==> b is None,
        n <= u16::MAX ==> c == Some(n as u16),
        n > u16::MAX ==> c is None,
{
    text::lemma_decimal_read_back(n as nat);
}

/// What is not a digit is no number.
pub proof fn lemma_no_number(chars: Vec<char>, i: int, r: Option<u64>)
    requires
        call_ensures(text::parse_u64, (&chars,), r),
        chars@.len() == 0 || (0 <= i < chars@.len() && !('0' <= chars@[i] <= '9') && (i > 0
            || chars@[i] != '+')),
    ensures
        r is None,
{
    let d = text::unsigned_digits(chars@);
    if chars@.len() > 0 {
        if chars@[0] == '+' {
            assert(d[i - 1] == chars@[i]);
        } else {
            assert(d[i] == chars@[i]);
        }
    }
}

/// A negative number is written with its sign.
pub proof fn lemma_signed_number(n: i64, r: String, m: u128, d: String)
    requires
        call_ensures(text::signed_decimal_of, (n,), r),
        call_ensures(text::decimal_of, (m,), d),
        m == if n < 0 {
            -n
        } else {
            n as int
        },
    ensures
        n >= 0 ==> r@ == d@,
        n < 0 ==> r@.len() > 0 && r@[0] == '-' && r@.skip(1) == d@,
{
    if n < 0 {
        assert(r@.skip(1) =~= d@);
    }
}

/// Joining what a text is split into gives the text again, and no part holds the separator.
pub proof fn lemma_split(s: Vec<char>, sep: char, r: Vec<Vec<char>>, i: int)
    requires
        call_ensures(text::split_at_char, (&s, sep), r),
    ensures
        r@.len() > 0,
        text::joined(r@.map_values(|v: Vec<char>| v@), seq![sep]) == s@,
        0 <= i < r@.len() ==> !r@[i]@.contains(sep),
{
    let p = r@.map_values(|v: Vec<char>| v@);
    lemma_split_parts(s@, sep);
    assert(p.len() == r@.len());
    if 0 <= i < r@.len() {
        assert(p[i] == r@[i]@);
    }
}

proof fn lemma_split_parts(s: Seq<char>, sep: char)
    ensures
        text::split(s, sep).len() > 0,
        text::joined(text::split(s, sep), seq![sep]) == s,
        forall|i: int|
            0 <= i < text::split(s, sep).len() ==> !(#[trigger] text::split(s, sep)[i]).contains(
                sep,
            ),
    decreases s.len(),
{
    text::lemma_position(s, sep);
    let p = text::position(s, sep) as int;
    let all = text::split(s, sep);
    if p >= s.len() {
        assert(all =~= seq![s]);
        assert forall|j: int| 0 <= j < s.len() implies s[j] != sep by {}
    } else {
        let head = s.take(p);
        let rest = s.skip(p + 1);
        lemma_split_parts(rest, sep);
        let more = text::split(rest, sep);
        assert(all =~= seq![head] + more);
        assert forall|i: int| 0 <= i < all.len() implies !(#[trigger] all[i]).contains(sep) by {
            if i > 0 {
                assert(all[i] == more[i - 1]);
            } else {
                assert forall|j: int| 0 <= j < head.len() implies head[j] != sep by {
                    assert(head[j] == s[j]);
                }
            }
        }
        lemma_joined_first(head, more, sep);
        assert(head + (seq![sep] + rest) =~= s);
    }
}

proof fn lemma_joined_first(head: Seq<char>, more: Seq<Seq<char>>, sep: char)
    requires
        more.len() > 0,
    ensures
        text::joined(seq![head] + more, seq![sep]) == head + (seq![sep] + text::joined(
            more,
            seq![sep],
        )),
    decreases more.len(),
{
    let all = seq![head] + more;
    assert(all.last() == more.last());
    if more.len() == 1 {
        assert(all.drop_last() =~= seq![head]);
        assert(text::joined(seq![head], seq![sep]) == head);
        assert(head + seq![sep] + more[0] =~= head + (seq![sep] + more[0]));
    } else {
        let some = more.drop_last();
        lemma_joined_first(head, some, sep);
        assert(all.drop_last() =~= seq![head] + some);
        let j = text::joined(some, seq![sep]);
        assert(head + (seq![sep] + j) + seq![sep] + more.last() =~= head + (seq![sep] + (j
            + seq![sep] + more.last())));
    }
}

// ---------------------------------------------------------------------------
// Command lines
// ---------------------------------------------------------------------------

/// A command line runs in the shell of the system, as one word.
pub proof fn lemma_shell(line: &str, a: Vec<String>, b: Vec<String>)
    requires
        call_ensures(shell::build_shell_command, (System::Unix, line), a),
        call_ensures(shell::build_shell_command, (System::Windows, line), b),
    ensures
        a@.len() == 3 && a@[0]@ == "sh"@ && a@[1]@ == "-c"@ && a@[2]@ == line@,
        b@.len() == 3 && b@[0]@ == "cmd"@ && b@[1]@ == "/C"@ && b@[2]@ == line@,
{
    let x = text::texts(a@);
    let y = text::texts(b@);
    assert(x.len() == a@.len() && y.len() == b@.len());
    assert(x[0] == a@[0]@ && x[1] == a@[1]@ && x[2] == a@[2]@);
    assert(y[0] == b@[0]@ && y[1] == b@[1]@ && y[2] == b@[2]@);
}

// ---------------------------------------------------------------------------
// Tables
// ---------------------------------------------------------------------------

proof fn lemma_parts_of_an_hour(n: int, h: int, m: int, s: int)
    by (nonlinear_arith)
    requires
        n == 3600 * h + 60 * m + s,
        0 <= h,
        0 <= m < 60,
        0 <= s < 60,
    ensures
        n / 3600 == h,
        (n % 3600) / 60 == m,
        n % 60 == s,
        n < 60 <==> h == 0 && m == 0,
        n < 3600 <==> h == 0,
        n / 60 == 60 * h + m,
{
}

/// A span of time is written in hours, minutes and seconds, without the leading ones that
/// are zero.
#[verifier::rlimit(40)]
#[verifier::spinoff_prover]
pub proof fn lemma_uptime_text(secs: u64, r: String, h: nat, m: nat, s: nat)
    requires
        call_ensures(tables::format_uptime, (secs,), r),
        secs == 3600 * h + 60 * m + s,
        m < 60,
        s < 60,
    ensures
        h == 0 && m == 0 ==> r@ == text::decimal(s) + "s"@,
        h == 0 && m > 0 ==> r@ == text::decimal(m) + "m "@ + text::decimal(s) + "s"@,
        h > 0 ==> r@ == text::decimal(h) + "h "@ + text::decimal(m) + "m "@ + text::decimal(s)
            + "s"@,
{
    lemma_parts_of_an_hour(secs as int, h as int, m as int, s as int);
}

/// A policy is named as it is asked for.
pub proof fn lemma_policy_names(a: &'static str, b: &'static str, c: &'static str)
    requires
        call_ensures(tables::policy_name, (RestartPolicy::No,), a),
        call_ensures(tables::policy_name, (RestartPolicy::OnFailure,), b),
        call_ensures(tables::policy_name, (RestartPolicy::Always,), c),
    ensures
        a@ == "no"@,
        b@ == "on-failure"@,
        c@ == "always"@,
{
}

/// Whether a table has a row for a process: what is known of it stands in its columns.
pub open spec fn shows(t: Seq<char>, at: int, p: ProcessInfo) -> bool {
    &&& text::occurs_at(t, p.name@, at)
    &&& p.pid matches Some(n) ==> text::occurs_at(t, text::decimal(n as nat), at + 21)
    &&& text::occurs_at(t, p.status@, at + 30)
    &&& p.ready matches Some(s) ==> text::occurs_at(t, s@, at + 41)
    &&& p.signal matches Some(s) ==> text::occurs_at(t, s@, at + 50)
    &&& p.signal is None && p.exit_code is Some ==> text::occurs_at(
        t,
        text::signed_decimal(p.exit_code->0 as int),
        at + 50,
    )
}

/// Each process has a row in the table, with its name, number, status, readiness and end
/// in their columns; a table of no process says so.
pub proof fn lemma_process_table(ps: PsResponse, r: String, i: int)
    requires
        call_ensures(tables::format_ps_table, (&ps,), r),
        forall|j: int| #![trigger ps.processes@[j]]
            0 <= j < ps.processes@.len() ==> fits(ps.processes@[j]),
    ensures
        ps.processes@.len() == 0 ==> r@ == "No processes running"@,
        0 <= i < ps.processes@.len() ==> exists|at: int| #[trigger]
            shows(r@, at, ps.processes@[i]),
{
    if 0 <= i < ps.processes@.len() {
        let s = ps.processes@;
        let w = tables::any_ports(s);
        let head = tables::ps_row(tables::ps_head(), w) + tables::dashes(86) + "\n"@;
        let at = lemma_rows(s, w, i);
        assert(fits(s[i]));
        lemma_shows_behind(head, tables::ps_rows(s, w), at, s[i]);
    }
}

/// Whether what is shown of a process fits into the columns of the table.
pub open spec fn fits(p: ProcessInfo) -> bool {
    &&& p.name@.len() <= 20
    &&& p.pid matches Some(n) ==> text::decimal(n as nat).len() <= 8
    &&& p.status@.len() <= 10
    &&& p.ready matches Some(s) ==> s@.len() <= 8
    &&& p.signal matches Some(s) ==> s@.len() <= 8
}

proof fn lemma_behind(head: Seq<char>, t: Seq<char>, w: Seq<char>, at: int)
    requires
        text::occurs_at(t, w, at),
    ensures
        text::occurs_at(head + t, w, at + head.len()),
{
    let s = head + t;
    assert(s.subrange(at + head.len(), at + head.len() + w.len()) =~= t.subrange(
        at,
        at + w.len(),
    ));
}

proof fn lemma_before(t: Seq<char>, tail: Seq<char>, w: Seq<char>, at: int)
    requires
        text::occurs_at(t, w, at),
    ensures
        text::occurs_at(t + tail, w, at),
{
    let s = t + tail;
    assert(s.subrange(at, at + w.len()) =~= t.subrange(at, at + w.len()));
}

proof fn lemma_shows_behind(head: Seq<char>, t: Seq<char>, at: int, p: ProcessInfo)
    requires
        shows(t, at, p),
    ensures
        shows(head + t, at + head.len(), p),
{
    lemma_behind(head, t, p.name@, at);
    if let Some(n) = p.pid {
        lemma_behind(head, t, text::decimal(n as nat), at + 21);
    }
    lemma_behind(head, t, p.status@, at + 30);
    if let Some(s) = p.ready {
        lemma_behind(head, t, s@, at + 41);
    }
    if let Some(s) = p.signal {
        lemma_behind(head, t, s@, at + 50);
    } else if let Some(c) = p.exit_code {
        lemma_behind(head, t, text::signed_decimal(c as int), at + 50);
    }
}

proof fn lemma_shows_before(t: Seq<char>, tail: Seq<char>, at: int, p: ProcessInfo)
    requires
        shows(t, at, p),
    ensures
        shows(t + tail, at, p),
{
    lemma_before(t, tail, p.name@, at);
    if let Some(n) = p.pid {
        lemma_before(t, tail, text::decimal(n as nat), at + 21);
    }
    lemma_before(t, tail, p.status@, at + 30);
    if let Some(s) = p.ready {
        lemma_before(t, tail, s@, at + 41);
    }
    if let Some(s) = p.signal {
        lemma_before(t, tail, s@, at + 50);
    } else if let Some(c) = p.exit_code {
        lemma_before(t, tail, text::signed_decimal(c as int), at + 50);
    }
}

#[verifier::rlimit(60)]
#[verifier::spinoff_prover]
proof fn lemma_row(p: ProcessInfo, w: bool)
    requires
        fits(p),
    ensures
        shows(tables::ps_row(tables::ps_cells(p), w), 0, p),
{
    reveal_strlit(" ");
    reveal_strlit("-");
    let c = tables::ps_cells(p);
    let r = tables::ps_row(c, w);
    assert(c.pid.len() <= 8 && c.ready.len() <= 8);
    assert(text::padded(c.name, 20).len() == 20);
    assert(text::padded(c.pid, 8).len() == 8);
    assert(text::padded(c.status, 10).len() == 10);
    assert(text::padded(c.ready, 8).len() == 8);
    assert(r.subrange(0, c.name.len() as int) =~= c.name);
    assert(r.subrange(21, 21 + c.pid.len() as int) =~= c.pid);
    assert(r.subrange(30, 30 + c.status.len() as int) =~= c.status);
    assert(r.subrange(41, 41 + c.ready.len() as int) =~= c.ready);
    assert(r.subrange(50, 50 + c.exit.len() as int) =~= c.exit);
}

proof fn lemma_rows(s: Seq<ProcessInfo>, w: bool, i: int) -> (at: int)
    requires
        0 <= i < s.len(),
        fits(s[i]),
    ensures
        shows(tables::ps_rows(s, w), at, s[i]),
    decreases s.len(),
{
    let rest = s.drop_last();
    let row = tables::ps_row(tables::ps_cells(s.last()), w);
    let before = tables::ps_rows(rest, w);
    if i < s.len() - 1 {
        assert(rest[i] == s[i]);
        let at = lemma_rows(rest, w, i);
        lemma_shows_before(before, row, at, s[i]);
        at
    } else {
        lemma_row(s[i], w);
        lemma_shows_behind(before, row, 0, s[i]);
        before.len() as int
    }
}

// ---------------------------------------------------------------------------
// Log lines
// ---------------------------------------------------------------------------

/// A line of a log is shown with its stream, and ends with what was written.
pub proof fn lemma_line_text(l: LogLine, r: String, label: &'static str)
    requires
        call_ensures(LogLine::to_string, (&l,), r),
        call_ensures(Stream::label, (l.stream,), label),
    ensures
        text::ends_with(r@, label@ + "] "@ + l.content@),
        label@ == "stdout"@ <==> l.stream == Stream::Stdout,
        label@ == "stderr"@ <==> l.stream == Stream::Stderr,
        label@ == "probe:stdout"@ <==> l.stream == Stream::ProbeStdout,
        label@ == "probe:stderr"@ <==> l.stream == Stream::ProbeStderr,
{
    reveal_strlit("stdout");
    reveal_strlit("stderr");
    reveal_strlit("probe:stdout");
    reveal_strlit("probe:stderr");
    assert("stdout"@[3] == 'o' && "stderr"@[3] == 'e');
    assert("probe:stdout"@[9] == 'o' && "probe:stderr"@[9] == 'e');
    assert("stdout"@.len() == 6 && "stderr"@.len() == 6 && "probe:stdout"@.len() == 12
        && "probe:stderr"@.len() == 12);
    let w = label@ + "] "@ + l.content@;
    assert(r@.subrange(r@.len() - w.len(), r@.len() as int) =~= w);
}

// ---------------------------------------------------------------------------
// Runs
// ---------------------------------------------------------------------------

/// Whether a row of the table of runs is at a place, with each value in its column.
pub open spec fn tells(t: Seq<char>, at: int, x: RunInfo) -> bool {
    &&& text::occurs_at(t, text::decimal(x.run_id as nat), at)
    &&& text::occurs_at(t, x.status@, at + 7)
    &&& x.signal matches Some(s) ==> text::occurs_at(t, s@, at + 18)
    &&& x.signal is None && x.exit_code is Some ==> text::occurs_at(
        t,
        text::signed_decimal(x.exit_code->0 as int),
        at + 18,
    )
}

/// Whether the values of a run are short enough for their columns.
pub open spec fn fits_columns(x: RunInfo) -> bool {
    &&& text::decimal(x.run_id as nat).len() <= 6
    &&& x.status@.len() <= 10
}

#[verifier::rlimit(60)]
#[verifier::spinoff_prover]
proof fn lemma_run_row(x: RunInfo)
    requires
        fits_columns(x),
    ensures
        tells(tables::run_row(x), 0, x),
{
    reveal_strlit(" ");
    let r = tables::run_row(x);
    let n = text::decimal(x.run_id as nat);
    let e = tables::exit_cell(text::opt_text(x.signal), x.exit_code);
    assert(text::padded(n, 6).len() == 6);
    assert(text::padded(x.status@, 10).len() == 10);
    assert(r.subrange(0, n.len() as int) =~= n);
    assert(r.subrange(7, 7 + x.status@.len() as int) =~= x.status@);
    assert(r.subrange(18, 18 + e.len() as int) =~= e);
}

proof fn lemma_run_rows(s: Seq<RunInfo>, i: int) -> (at: int)
    requires
        0 <= i < s.len(),
        fits_columns(s[i]),
    ensures
        tells(tables::history_rows(s), at, s[i]),
    decreases s.len(),
{
    let rest = s.drop_last();
    let row = tables::run_row(s.last());
    let before = tables::history_rows(rest);
    let n = text::decimal(s[i].run_id as nat);
    let e = tables::exit_cell(text::opt_text(s[i].signal), s[i].exit_code);
    if i < s.len() - 1 {
        assert(rest[i] == s[i]);
        let at = lemma_run_rows(rest, i);
        lemma_before(before, row, n, at);
        lemma_before(before, row, s[i].status@, at + 7);
        if s[i].signal is Some || s[i].exit_code is Some {
            lemma_before(before, row, e, at + 18);
        }
        at
    } else {
        lemma_run_row(s[i]);
        lemma_behind(before, row, n, 0);
        lemma_behind(before, row, s[i].status@, 7);
        if s[i].signal is Some || s[i].exit_code is Some {
            lemma_behind(before, row, e, 18);
        }
        before.len() as int
    }
}

/// Each run has a row in the table of runs, with its number, status and end in their
/// columns; where there is no run the table says of which process.
pub proof fn lemma_run_table(h: HistoryResponse, r: String, i: int)
    requires
        call_ensures(tables::format_history_table, (&h,), r),
        0 <= i < h.runs@.len() ==> fits_columns(h.runs@[i]),
    ensures
        h.runs@.len() == 0 ==> r@ == "No runs recorded for '"@ + h.name@ + "'"@,
        0 <= i < h.runs@.len() ==> exists|at: int| #[trigger] tells(r@, at, h.runs@[i]),
{
    if 0 <= i < h.runs@.len() {
        let x = h.runs@[i];
        let at = lemma_run_rows(h.runs@, i);
        let head = tables::history_row("RUN"@, "STATUS"@, "EXIT"@, "STARTED"@, "DURATION"@)
            + tables::dashes(68) + "\n"@;
        let t = tables::history_rows(h.runs@);
        let e = tables::exit_cell(text::opt_text(x.signal), x.exit_code);
        assert(r@ == head + t);
        lemma_behind(head, t, text::decimal(x.run_id as nat), at);
        lemma_behind(head, t, x.status@, at + 7);
        if x.signal is Some || x.exit_code is Some {
            lemma_behind(head, t, e, at + 18);
        }
        assert(tells(r@, at + head.len(), x));
    }
}

} // verus!
