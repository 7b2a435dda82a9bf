//! The command line: what its arguments mean, and what is printed.
use crate::api;
use crate::client;
use crate::json;
use crate::json::{Js, Json};
use crate::names::NameMap;
use crate::order;
use crate::protocol::{PortDefArg, Response, RestartPolicy, SendArgs, StreamFilter, WaitFor};
use crate::psyfile;
use crate::psyfile::{Psyfile, UnitView};
use crate::text;
use crate::time;
use crate::time::Timestamp;
use vstd::prelude::*;

verus! {

// ---------------------------------------------------------------------------
// Times
// ---------------------------------------------------------------------------

/// The seconds in a unit of time.
pub open spec fn unit_seconds(unit: char) -> Option<int> {
    if unit == 's' {
        Some(1)
    } else if unit == 'm' {
        Some(60)
    } else if unit == 'h' {
        Some(3600)
    } else if unit == 'd' {
        Some(86400)
    } else {
        None
    }
}

/// How many seconds ago a text says, where it is a number with a unit. The number
/// counts as one of 64 bits with a sign.
pub open spec fn seconds_ago(t: Seq<char>) -> Option<int> {
    if t.len() == 0 {
        None
    } else {
        match (unit_seconds(t.last()), text::unsigned(t.drop_last(), u64::MAX as nat)) {
            (Some(u), Some(n)) => Some((n as u64) as i64 * u),
            _ => None,
        }
    }
}

/// Whether a time that a text gives relative to now is within the calendar.
pub open spec fn reachable(s: Seq<char>, now: Timestamp) -> bool {
    seconds_ago(text::trimmed(s)) matches Some(n) ==> time::in_calendar(
        now.seconds() - n,
        now.subsec(),
    )
}

/// The time that a text stands for: relative to now, or absolute.
pub open spec fn time_of(s: Seq<char>, now: Timestamp) -> Result<(int, int), Seq<char>> {
    let t = text::trimmed(s);
    match seconds_ago(t) {
        Some(n) => Ok((now.seconds() - n, now.subsec())),
        None => match time::rfc3339_read(t) {
            Ok(x) => Ok(x),
            Err(_) => match time::naive_read(t) {
                Some(x) => Ok(x),
                None => Err(
                    "expected relative duration (e.g. 5s, 10m, 1h, 2d) or RFC 3339 timestamp, got: "@
                        + s,
                ),
            },
        },
    }
}

fn read_ago(t: &Vec<char>) -> (r: Option<i128>)
    ensures
        match r {
            Some(n) => seconds_ago(t@) == Some(n as int),
            None => seconds_ago(t@) is None,
        },
{
    if t.len() == 0 {
        return None;
    }
    let unit = t[t.len() - 1];
    let u: i128 = if unit == 's' {
        1
    } else if unit == 'm' {
        60
    } else if unit == 'h' {
        3600
    } else if unit == 'd' {
        86400
    } else {
        return None;
    };
    let digits = text::part(t, 0, t.len() - 1);
    proof {
        assert(digits@ =~= t@.drop_last());
    }
    match text::parse_u64(&digits) {
        Some(n) => {
            let signed = n as i64;
            proof {
                assert(-0x8000_0000_0000_0000 * 86400 <= signed * u <= 0x8000_0000_0000_0000
                    * 86400) by (nonlinear_arith)
                    requires
                        -0x8000_0000_0000_0000 <= signed <= 0x7fff_ffff_ffff_ffff,
                        1 <= u <= 86400,
                ;
            }
            Some(signed as i128 * u)
        },
        None => None,
    }
}

/// Tests whether a time that a text gives relative to now is within the calendar.
pub fn is_reachable(s: &str, now: &Timestamp) -> (r: bool)
    requires
        now.subsec() < 1_000_000_000,
    ensures
        r == reachable(s@, *now),
{
    let t = text::trim(s);
    match read_ago(&text::chars_of(t.as_str())) {
        Some(n) => now.earlier(n).is_some(),
        None => true,
    }
}

/// Reads a time: relative to now, such as `5m`, or absolute.
pub fn parse_time_spec(s: &str, now: &Timestamp) -> (r: Result<Timestamp, String>)
    requires
        now.subsec() < 1_000_000_000,
        reachable(s@, *now),
    ensures
        match r {
            Ok(t) => time_of(s@, *now) == Ok::<(int, int), Seq<char>>((t.seconds(), t.subsec())),
            Err(e) => time_of(s@, *now) == Err::<(int, int), Seq<char>>(e@),
        },
{
    let t = text::trim(s);
    match read_ago(&text::chars_of(t.as_str())) {
        Some(n) => {
            match now.earlier(n) {
                Some(x) => {
                    return Ok(x);
                },
                None => {
                    proof {
                        assert(false);
                    }
                },
            }
        },
        None => {},
    }
    match Timestamp::parse_rfc3339(t.as_str()) {
        Ok(x) => Ok(x),
        Err(_) => match Timestamp::parse_naive(t.as_str()) {
            Some(x) => Ok(x),
            None => Err(
                text::concat2(
                    "expected relative duration (e.g. 5s, 10m, 1h, 2d) or RFC 3339 timestamp, got: ",
                    s,
                ),
            ),
        },
    }
}

/// The time that a question about a log is sent with: what is new since the last
/// request is told by the root.
pub open spec fn since_sent(s: Seq<char>, now: Timestamp) -> Result<Seq<char>, Seq<char>> {
    if s == "last"@ {
        Ok(s)
    } else {
        match time_of(s, now) {
            Ok(t) => Ok(time::rfc3339(t.0, t.1)),
            Err(e) => Err(e),
        }
    }
}

/// Makes the time that a question about a log is sent with.
pub fn since_arg(s: &str, now: &Timestamp) -> (r: Result<String, String>)
    requires
        now.subsec() < 1_000_000_000,
        s@ != "last"@ ==> reachable(s@, *now),
    ensures
        match r {
            Ok(t) => since_sent(s@, *now) == Ok::<Seq<char>, Seq<char>>(t@),
            Err(e) => since_sent(s@, *now) == Err::<Seq<char>, Seq<char>>(e@),
        },
{
    if text::same(s, "last") {
        return Ok(text::copy(s));
    }
    match parse_time_spec(s, now) {
        Ok(t) => Ok(t.to_rfc3339()),
        Err(e) => Err(e),
    }
}

// ---------------------------------------------------------------------------
// Arguments
// ---------------------------------------------------------------------------

/// The restart policy with a name; any other name means none.
pub fn parse_restart_policy(s: &str) -> (r: RestartPolicy)
    ensures
        r == (if s@ == "on-failure"@ || s@ == "on_failure"@ {
            RestartPolicy::OnFailure
        } else if s@ == "always"@ {
            RestartPolicy::Always
        } else {
            RestartPolicy::No
        }),
{
    if text::same(s, "on-failure") || text::same(s, "on_failure") {
        RestartPolicy::OnFailure
    } else if text::same(s, "always") {
        RestartPolicy::Always
    } else {
        RestartPolicy::No
    }
}

/// What stands before and after the first equals sign, where there is one.
pub open spec fn assignment(s: Seq<char>) -> Option<(Seq<char>, Seq<char>)> {
    let p = text::position(s, '=') as int;
    if p < s.len() {
        Some((s.take(p), s.skip(p + 1)))
    } else {
        None
    }
}

/// The variables that some assignments set: of two to one name the later counts,
/// and what is no assignment is passed over.
pub open spec fn assignments(s: Seq<Seq<char>>) -> Map<Seq<char>, Seq<char>>
    decreases s.len(),
{
    if s.len() == 0 {
        Map::empty()
    } else {
        match assignment(s.last()) {
            Some((k, v)) => assignments(s.drop_last()).insert(k, v),
            None => assignments(s.drop_last()),
        }
    }
}

fn split_assignment(s: &str) -> (r: Option<(String, String)>)
    ensures
        match r {
            Some((k, v)) => assignment(s@) == Some((k@, v@)),
            None => assignment(s@) is None,
        },
{
    let c = text::chars_of(s);
    let p = text::find_char(&c, '=');
    if p >= c.len() {
        return None;
    }
    let k = text::string_of(&text::part(&c, 0, p));
    let v = text::string_of(&text::part(&c, p + 1, c.len()));
    proof {
        assert(k@ =~= s@.take(p as int));
        assert(v@ =~= s@.skip(p + 1));
    }
    Some((k, v))
}

/// Reads variables of the form `KEY=VAL`.
pub fn parse_env_args(envs: &Vec<String>) -> (r: NameMap<String>)
    ensures
        psyfile::env_view(r) == assignments(text::texts(envs@)),
{
    let mut out: NameMap<String> = NameMap::new();
    let ghost all = text::texts(envs@);
    let mut i: usize = 0;
    proof {
        assert(psyfile::env_view(out) =~= assignments(all.take(0)));
    }
    while i < envs.len()
        invariant
            i <= envs.len(),
            all == text::texts(envs@),
            psyfile::env_view(out) == assignments(all.take(i as int)),
        decreases envs.len() - i,
    {
        let ghost before = psyfile::env_view(out);
        proof {
            assert(all.take(i + 1).drop_last() =~= all.take(i as int));
            assert(all.take(i + 1).last() == envs@[i as int]@);
        }
        match split_assignment(envs[i].as_str()) {
            Some((k, v)) => {
                let ghost key = k@;
                let ghost value = v@;
                out.insert(k, v);
                proof {
                    assert(psyfile::env_view(out) =~= before.insert(key, value));
                }
            },
            None => {},
        }
        i += 1;
    }
    proof {
        assert(all.take(all.len() as int) =~= all);
    }
    out
}

/// The port that an argument asks for: a name, or a name and the number that is
/// preferred.
pub fn parse_port_arg(s: &str) -> (r: Result<PortDefArg, String>)
    ensures
        match assignment(s@) {
            None => r matches Ok(p) && p.name@ == s@ && p.default is None,
            Some((n, v)) => match text::unsigned(v, u16::MAX as nat) {
                Some(x) => r matches Ok(p) && p.name@ == n && p.default == Some(x as u16),
                None => r matches Err(e) && e@ == "invalid port: "@ + s@,
            },
        },
{
    match split_assignment(s) {
        None => Ok(PortDefArg { name: text::copy(s), default: None }),
        Some((n, v)) => {
            let digits = text::chars_of(v.as_str());
            match text::parse_u16(&digits) {
                Some(x) => Ok(PortDefArg { name: n, default: Some(x) }),
                None => Err(text::concat2("invalid port: ", s)),
            }
        },
    }
}

/// The stream that two flags ask for.
pub fn stream_flags(stdout: bool, stderr: bool) -> (r: StreamFilter)
    ensures
        r == (if stdout {
            StreamFilter::Stdout
        } else if stderr {
            StreamFilter::Stderr
        } else {
            StreamFilter::All
        }),
{
    if stdout {
        StreamFilter::Stdout
    } else if stderr {
        StreamFilter::Stderr
    } else {
        StreamFilter::All
    }
}

/// The condition that the arguments of a run name: a word, a text in the log or a
/// dependency, in this order.
pub fn wait_condition(
    word: Option<String>,
    log: Option<String>,
    dependency: Option<String>,
) -> (r: Result<Option<WaitFor>, String>)
    ensures
        match (word, log, dependency) {
            (Some(w), _, _) => if w@ == "ready"@ {
                r matches Ok(Some(WaitFor::Ready))
            } else if w@ == "exit"@ {
                r matches Ok(Some(WaitFor::Exit))
            } else {
                r matches Err(e) && e@ == "invalid wait_for value: "@ + w@
            },
            (None, Some(p), _) => r matches Ok(Some(WaitFor::Log { pattern })) && pattern == p,
            (None, None, Some(d)) => r matches Ok(Some(WaitFor::Dependency { name })) && name == d,
            (None, None, None) => r matches Ok(None),
        },
{
    match word {
        Some(w) => {
            if text::same(w.as_str(), "ready") {
                return Ok(Some(WaitFor::Ready));
            }
            if text::same(w.as_str(), "exit") {
                return Ok(Some(WaitFor::Exit));
            }
            return Err(text::concat2("invalid wait_for value: ", w.as_str()));
        },
        None => {},
    }
    match log {
        Some(pattern) => {
            return Ok(Some(WaitFor::Log { pattern }));
        },
        None => {},
    }
    match dependency {
        Some(name) => Ok(Some(WaitFor::Dependency { name })),
        None => Ok(None),
    }
}

/// The request to write to a process: a line, a text as it is, what a file holds,
/// or the end of its input.
pub fn send_args(
    name: &str,
    input: Option<String>,
    file: Option<String>,
    raw: bool,
    eof: bool,
) -> (r: SendArgs)
    ensures
        r.name@ == name@,
        r.eof == eof,
        text::opt_text(r.input) == (if eof {
            None
        } else {
            match (file, input) {
                (Some(c), _) => Some(c@),
                (None, Some(t)) => if raw {
                    Some(t@)
                } else {
                    Some(t@ + "\n"@)
                },
                (None, None) => None,
            }
        }),
{
    let text = if eof {
        None
    } else {
        match file {
            Some(c) => Some(c),
            None => match input {
                Some(t) => if raw {
                    Some(t)
                } else {
                    Some(text::concat2(t.as_str(), "\n"))
                },
                None => None,
            },
        }
    };
    SendArgs { name: text::copy(name), input: text, eof }
}

/// The name of a root: the one it is given, else one with its process id.
pub fn root_name(name: Option<String>, pid: u32) -> (r: String)
    ensures
        r@ == (match name {
            Some(n) => n@,
            None => "psy-"@ + text::decimal(pid as nat),
        }),
{
    match name {
        Some(n) => n,
        None => text::concat2("psy-", text::decimal_of(pid as u128).as_str()),
    }
}

// ---------------------------------------------------------------------------
// Starting a root
// ---------------------------------------------------------------------------

/// The message where the units of a Psyfile cannot be used.
pub open spec fn unusable(error: Seq<char>) -> Seq<char> {
    "psy up: Psyfile error: "@ + error
}

/// Reads and checks the Psyfile that a root is started with.
pub fn load_for_up(path: &str, content: &Result<String, String>, os: &Option<String>) -> (r: Result<
    Psyfile,
    String,
>)
    ensures
        match content {
            Err(e) => r matches Err(m) && m@ == "psy up: "@ + ("cannot read "@ + path@ + ": "@
                + e@),
            Ok(c) => match psyfile::psyfile_text_on(c@, text::opt_text(*os)) {
                Err(m) => r matches Err(e) && e@ == "psy up: "@ + m,
                Ok(units) => match r {
                    Ok(p) => psyfile::units_view(p.units@) == units && order::usable(units),
                    Err(e) => !order::usable(units) && exists|names: Seq<Seq<char>>| #[trigger]
                        psyfile::lists(names, units) && order::validation_error(units, names)
                            is Some && e@ == unusable(order::validation_error(units, names)->0),
                },
            },
        },
{
    let p = match psyfile::parse(path, content, os) {
        Ok(p) => p,
        Err(e) => {
            return Err(text::concat2("psy up: ", e.as_str()));
        },
    };
    let ghost units = psyfile::units_view(p.units@);
    let ghost names = p.units.names();
    proof {
        assert(content is Ok);
        p.units.lemma_names();
        assert(psyfile::lists(names, units)) by {
            assert forall|k: Seq<char>| #[trigger] units.dom().contains(k) <==> names.contains(
                k,
            ) by {}
        }
        order::lemma_validation(units, names);
    }
    match order::validate(&p) {
        Ok(_) => Ok(p),
        Err(e) => {
            let m = text::concat2("psy up: Psyfile error: ", e.as_str());
            proof {
                assert(psyfile::lists(names, units) && order::validation_error(units, names)
                    is Some && m@ == unusable(order::validation_error(units, names)->0));
            }
            Err(m)
        },
    }
}

/// The first of some names that is no unit.
pub open spec fn first_unknown(
    names: Seq<Seq<char>>,
    units: Map<Seq<char>, UnitView>,
) -> Option<Seq<char>>
    decreases names.len(),
{
    if names.len() == 0 {
        None
    } else if units.dom().contains(names[0]) {
        first_unknown(names.skip(1), units)
    } else {
        Some(names[0])
    }
}

/// Lists the units that a root starts at once: all of them, or those that are named.
pub fn units_to_boot(psyfile: &Psyfile, all: bool, units: Vec<String>) -> (r: Result<
    Vec<String>,
    String,
>)
    ensures
        if all {
            r matches Ok(v) && text::texts(v@) == psyfile.units.names()
        } else {
            match first_unknown(
                text::texts(units@),
                psyfile::units_view(psyfile.units@),
            ) {
                Some(u) => r matches Err(e) && e@ == "psy up: unknown unit '"@ + u
                    + "' in Psyfile"@,
                None => r == Ok::<Vec<String>, String>(units),
            }
        },
{
    if all {
        return Ok(api::unit_names(psyfile));
    }
    let ghost names = text::texts(units@);
    let ghost known = psyfile::units_view(psyfile.units@);
    let mut i: usize = 0;
    proof {
        assert(names.skip(0) =~= names);
    }
    while i < units.len()
        invariant
            i <= units.len(),
            !all,
            names == text::texts(units@),
            known == psyfile::units_view(psyfile.units@),
            first_unknown(names, known) == first_unknown(names.skip(i as int), known),
        decreases units.len() - i,
    {
        proof {
            assert(names.skip(i as int)[0] == units@[i as int]@);
            assert(names.skip(i as int).skip(1) =~= names.skip(i + 1));
        }
        if !psyfile.units.contains_key(units[i].as_str()) {
            return Err(
                text::concat3("psy up: unknown unit '", units[i].as_str(), "' in Psyfile"),
            );
        }
        i += 1;
    }
    Ok(units)
}

// ---------------------------------------------------------------------------
// Printing
// ---------------------------------------------------------------------------

/// What is printed of an answer: its data with indentation, or its error.
pub open spec fn printed(r: Response) -> Result<Option<Seq<char>>, Seq<char>> {
    if r.ok {
        Ok(
            match r.data {
                Some(v) => Some(json::pretty(json::written(json::model(v)))),
                None => None,
            },
        )
    } else {
        Err(
            "error: "@ + match r.error {
                Some(e) => e@,
                None => "unknown"@,
            },
        )
    }
}

/// What is wrong, by an answer.
pub fn answer_error(r: &Response) -> (out: Option<String>)
    ensures
        text::opt_text(out) == (match printed(*r) {
            Ok(_) => None,
            Err(e) => Some(e),
        }),
{
    if r.ok {
        None
    } else {
        match &r.error {
            Some(e) => Some(text::concat2("error: ", e.as_str())),
            None => {
                Some(text::concat2("error: ", "unknown"))
            },
        }
    }
}

/// Writes out what is printed of an answer.
pub fn print_answer(r: &Response) -> (out: Result<Option<String>, String>)
    ensures
        match out {
            Ok(t) => printed(*r) == Ok::<Option<Seq<char>>, Seq<char>>(text::opt_text(t)),
            Err(e) => printed(*r) == Err::<Option<Seq<char>>, Seq<char>>(e@),
        },
{
    match answer_error(r) {
        Some(e) => {
            return Err(e);
        },
        None => {},
    }
    match &r.data {
        Some(v) => Ok(Some(json::write_pretty(v))),
        None => Ok(None),
    }
}

/// The lines of a log in an answer, as they are shown.
pub open spec fn log_text(data: Option<Js>) -> Seq<Seq<char>> {
    match data {
        Some(v) => match json::array_member(v, "lines"@) {
            Some(a) => a.map_values(|l: Js| client::shown_line(l)),
            None => Seq::empty(),
        },
        None => Seq::empty(),
    }
}

/// Shows the lines of a log in an answer.
pub fn show_log(data: &Option<Json>) -> (r: Vec<String>)
    ensures
        text::texts(r@) == log_text(api::data_model(*data)),
{
    let mut out: Vec<String> = Vec::new();
    proof {
        assert(text::texts(out@) =~= Seq::<Seq<char>>::empty());
    }
    match data {
        Some(v) => match json::get_array(v, "lines") {
            Some(a) => {
                let mut i: usize = 0;
                while i < a.len()
                    invariant
                        i <= a.len(),
                        out@.len() == i,
                        forall|j: int|
                            0 <= j < i ==> (#[trigger] out@[j])@ == client::shown_line(
                                json::model(a@[j]),
                            ),
                    decreases a.len() - i,
                {
                    out.push(client::show_line(&a[i]));
                    i += 1;
                }
                proof {
                    assert(text::texts(out@) =~= json::models(a@).map_values(
                        |l: Js| client::shown_line(l),
                    ));
                }
                out
            },
            None => out,
        },
        None => out,
    }
}

} // verus!
