//! What the command line asks for, and how clients find a root and read what it sends.
use crate::cleanup;
use crate::cli;
use crate::client;
use crate::client::{Anchor, Candidate};
use crate::json;
use crate::json::{Js, Json};
use crate::lines;
use crate::lines::LineCutter;
use crate::names::NameMap;
use crate::protocol::{PortDefArg, ProcessInfo, Response, RestartPolicy, SendArgs, StreamFilter};
use crate::protocol::WaitFor;
use crate::psyfile;
use crate::psyfile::Psyfile;
use crate::text;
use crate::time;
use crate::time::Timestamp;
use vstd::prelude::*;

verus! {

// ---------------------------------------------------------------------------
// Arguments
// ---------------------------------------------------------------------------

proof fn lemma_ago(n: nat, unit: char)
    requires
        !text::is_space(unit),
    ensures
        ({
            let s = text::decimal(n).push(unit);
            &&& text::trimmed(s) == s
            &&& s.last() == unit
            &&& s.drop_last() == text::decimal(n)
            &&& n <= u64::MAX ==> text::unsigned(s.drop_last(), u64::MAX as nat) == Some(n)
        }),
{
    let d = text::decimal(n);
    let s = d.push(unit);
    text::lemma_decimal_read_back(n);
    assert(text::is_digit(d[0]));
    assert(s[0] == d[0]);
    assert(text::trim_start(s) == s);
    assert(s.drop_last() =~= d);
}

/// A number with a unit is so many seconds, minutes, hours or days before now.
pub proof fn lemma_time_ago(
    n: nat,
    s: &str,
    now: Timestamp,
    r: Result<Timestamp, String>,
)
    requires
        n <= i64::MAX,
        call_ensures(cli::parse_time_spec, (s, &now), r),
    ensures
        s@ == text::decimal(n) + "s"@ ==> r is Ok && r->Ok_0.seconds() == now.seconds() - n
            && r->Ok_0.subsec() == now.subsec(),
        s@ == text::decimal(n) + "m"@ ==> r is Ok && r->Ok_0.seconds() == now.seconds() - 60 * n
            && r->Ok_0.subsec() == now.subsec(),
        s@ == text::decimal(n) + "h"@ ==> r is Ok && r->Ok_0.seconds() == now.seconds() - 3600 * n
            && r->Ok_0.subsec() == now.subsec(),
        s@ == text::decimal(n) + "d"@ ==> r is Ok && r->Ok_0.seconds() == now.seconds() - 86400
            * n && r->Ok_0.subsec() == now.subsec(),
{
    reveal_strlit("s");
    reveal_strlit("m");
    reveal_strlit("h");
    reveal_strlit("d");
    let d = text::decimal(n);
    assert(d + "s"@ =~= d.push('s'));
    assert(d + "m"@ =~= d.push('m'));
    assert(d + "h"@ =~= d.push('h'));
    assert(d + "d"@ =~= d.push('d'));
    lemma_ago(n, 's');
    lemma_ago(n, 'm');
    lemma_ago(n, 'h');
    lemma_ago(n, 'd');
    assert((n as u64) as i64 == n);
    let u = cli::unit_seconds('s')->0;
    let x = (n as u64) as i64;
    assert(x * u == x) by (nonlinear_arith)
        requires
            u == 1,
    ;
}

/// The time of a question about a log is sent as it is meant: `last` as it is, any other
/// as the point in time that it names.
pub proof fn lemma_since_is_sent(
    s: &str,
    now: Timestamp,
    r: Result<String, String>,
    t: Result<Timestamp, String>,
)
    requires
        call_ensures(cli::since_arg, (s, &now), r),
        call_ensures(cli::parse_time_spec, (s, &now), t),
    ensures
        s@ == "last"@ ==> r is Ok && r->Ok_0@ == "last"@,
        s@ != "last"@ ==> (r is Ok <==> t is Ok),
        s@ != "last"@ && r is Ok ==> r->Ok_0@ == time::rfc3339(
            t->Ok_0.seconds(),
            t->Ok_0.subsec(),
        ),
{
}

/// A restart policy is named by its word.
pub proof fn lemma_policy_word(s: &str, r: RestartPolicy)
    requires
        call_ensures(cli::parse_restart_policy, (s,), r),
    ensures
        r == RestartPolicy::Always <==> s@ == "always"@,
        r == RestartPolicy::OnFailure <==> s@ == "on-failure"@ || s@ == "on_failure"@,
{
    reveal_strlit("always");
    reveal_strlit("on-failure");
    reveal_strlit("on_failure");
    assert("always"@.len() == 6 && "on-failure"@.len() == 10 && "on_failure"@.len() == 10);
}

/// Of `name=value` the name is what stands before the first equals sign and the value what
/// stands behind it. Each such argument sets a variable, and a later one wins.
pub proof fn lemma_assignments(
    envs: Vec<String>,
    r: NameMap<String>,
    i: int,
    name: Seq<char>,
    value: Seq<char>,
)
    requires
        call_ensures(cli::parse_env_args, (&envs,), r),
        0 <= i < envs@.len(),
        envs@[i]@ == name + "="@ + value,
        !name.contains('='),
        forall|j: int|
            i < j < envs@.len() ==> !text::starts_with((#[trigger] envs@[j])@, name + "="@),
    ensures
        r@.dom().contains(name),
        r@[name]@ == value,
{
    let s = text::texts(envs@);
    assert(s[i] == envs@[i]@);
    assert forall|j: int| i < j < s.len() implies !text::starts_with(
        #[trigger] s[j],
        name + "="@,
    ) by {
        assert(s[j] == envs@[j]@);
    }
    lemma_assigned(s, i, name, value);
    let v = psyfile::env_view(r);
    assert(v.dom().contains(name));
    assert(v[name] == r@[name]@);
}

proof fn lemma_assignment(s: Seq<char>, name: Seq<char>, value: Seq<char>)
    requires
        s == name + "="@ + value,
        !name.contains('='),
    ensures
        cli::assignment(s) == Some((name, value)),
{
    reveal_strlit("=");
    assert forall|j: int| 0 <= j < name.len() implies s[j] != '=' by {
        assert(s[j] == name[j]);
    }
    text::lemma_position_unique(s, '=', name.len());
    assert(s.take(name.len() as int) =~= name);
    assert(s.skip(name.len() as int + 1) =~= value);
}

proof fn lemma_assigned(s: Seq<Seq<char>>, i: int, name: Seq<char>, value: Seq<char>)
    requires
        0 <= i < s.len(),
        s[i] == name + "="@ + value,
        !name.contains('='),
        forall|j: int| i < j < s.len() ==> !text::starts_with(#[trigger] s[j], name + "="@),
    ensures
        cli::assignments(s).dom().contains(name),
        cli::assignments(s)[name] == value,
    decreases s.len(),
{
    if i == s.len() - 1 {
        lemma_assignment(s[i], name, value);
    } else {
        let rest = s.drop_last();
        assert forall|j: int| i < j < rest.len() implies !text::starts_with(
            #[trigger] rest[j],
            name + "="@,
        ) by {
            assert(rest[j] == s[j]);
        }
        lemma_assigned(rest, i, name, value);
        let l = s.last();
        assert(!text::starts_with(s[s.len() - 1], name + "="@));
        if let Some((k, v)) = cli::assignment(l) {
            if k == name {
                reveal_strlit("=");
                text::lemma_position(l, '=');
                let p = text::position(l, '=') as int;
                assert(l.subrange(0, p + 1) =~= name + "="@);
            }
        }
    }
}

/// A port is given by its name, with a number behind an equals sign where one is preferred.
/// Anything else behind it is refused.
pub proof fn lemma_port_argument(
    s: &str,
    r: Result<PortDefArg, String>,
    name: Seq<char>,
    n: u16,
    value: Seq<char>,
)
    requires
        call_ensures(cli::parse_port_arg, (s,), r),
        !name.contains('='),
    ensures
        s@ == name ==> r is Ok && r->Ok_0.name@ == name && r->Ok_0.default is None,
        s@ == name + "="@ + text::decimal(n as nat) ==> r is Ok && r->Ok_0.name@ == name
            && r->Ok_0.default == Some(n),
        s@ == name + "="@ + value && value.len() > 0 && !text::is_digit(value.last()) ==> r is Err,
{
    if s@ == name {
        text::lemma_position(s@, '=');
        let p = text::position(s@, '=') as int;
        if p < s@.len() {
            assert(s@.contains(s@[p]));
        }
    }
    if s@ == name + "="@ + text::decimal(n as nat) {
        lemma_assignment(s@, name, text::decimal(n as nat));
        text::lemma_decimal_read_back(n as nat);
    }
    if s@ == name + "="@ + value && value.len() > 0 && !text::is_digit(value.last()) {
        lemma_assignment(s@, name, value);
        let d = text::unsigned_digits(value);
        if d.len() > 0 {
            assert(d[d.len() - 1] == value.last());
            assert(!text::is_digit(d[d.len() - 1]));
        }
    }
}

/// The streams of a log are narrowed by the flags, and all are shown without.
pub proof fn lemma_stream_flags(a: StreamFilter, b: StreamFilter, c: StreamFilter)
    requires
        call_ensures(cli::stream_flags, (true, false), a),
        call_ensures(cli::stream_flags, (false, true), b),
        call_ensures(cli::stream_flags, (false, false), c),
    ensures
        a is Stdout,
        b is Stderr,
        c is All,
{
}

/// What is waited for is what is asked for.
pub proof fn lemma_wait_argument(
    word: String,
    log: String,
    dep: String,
    a: Result<Option<WaitFor>, String>,
    b: Result<Option<WaitFor>, String>,
    c: Result<Option<WaitFor>, String>,
    d: Result<Option<WaitFor>, String>,
)
    requires
        call_ensures(cli::wait_condition, (Some(word), None, None), a),
        call_ensures(cli::wait_condition, (None, Some(log), None), b),
        call_ensures(cli::wait_condition, (None, None, Some(dep)), c),
        call_ensures(cli::wait_condition, (None, None, None), d),
    ensures
        word@ == "ready"@ ==> a is Ok && a->Ok_0 is Some && a->Ok_0->0 is Ready,
        word@ == "exit"@ ==> a is Ok && a->Ok_0 is Some && a->Ok_0->0 is Exit,
        word@ != "ready"@ && word@ != "exit"@ ==> a is Err,
        b is Ok && b->Ok_0 is Some && b->Ok_0->0 is Log && b->Ok_0->0->pattern == log,
        c is Ok && c->Ok_0 is Some && c->Ok_0->0 is Dependency && c->Ok_0->0->Dependency_name
            == dep,
        d is Ok && d->Ok_0 is None,
{
    reveal_strlit("ready");
    reveal_strlit("exit");
    assert("ready"@.len() == 5 && "exit"@.len() == 4);
}

/// What is sent as a line ends with a newline; what is raw or comes from a file is sent as
/// it is; and the end of the input is sent without any.
pub proof fn lemma_send_arguments(
    name: &str,
    line: String,
    file: String,
    a: SendArgs,
    b: SendArgs,
    c: SendArgs,
    d: SendArgs,
    raw: bool,
    other: Option<String>,
)
    requires
        call_ensures(cli::send_args, (name, Some(line), None, false, false), a),
        call_ensures(cli::send_args, (name, Some(line), None, true, false), b),
        call_ensures(cli::send_args, (name, other, Some(file), raw, false), c),
        call_ensures(cli::send_args, (name, other, Some(file), raw, true), d),
    ensures
        a.name@ == name@ && !a.eof && a.input is Some && a.input->0@.len() > 0
            && a.input->0@.last() == '\n' && a.input->0@.drop_last() == line@,
        b.name@ == name@ && !b.eof && b.input is Some && b.input->0@ == line@,
        c.name@ == name@ && !c.eof && c.input is Some && c.input->0@ == file@,
        d.name@ == name@ && d.eof && d.input is None,
{
    reveal_strlit("\n");
    assert(text::opt_text(a.input) == Some(line@ + "\n"@));
    assert((line@ + "\n"@).drop_last() =~= line@);
}

/// A root has the name that it is given, else one with the number of its process.
pub proof fn lemma_root_name(n: String, pid: u32, a: String, b: String)
    requires
        call_ensures(cli::root_name, (Some(n), pid), a),
        call_ensures(cli::root_name, (None, pid), b),
    ensures
        a@ == n@,
        text::starts_with(b@, "psy-"@),
        b@.skip(4) == text::decimal(pid as nat),
{
    reveal_strlit("psy-");
    assert(b@.subrange(0, 4) =~= "psy-"@);
    assert(b@.skip(4) =~= text::decimal(pid as nat));
}

/// A root starts the units that are named, each of which has to be in the Psyfile, or all
/// of them.
pub proof fn lemma_units_to_boot(
    p: Psyfile,
    units: Vec<String>,
    some: Result<Vec<String>, String>,
    all: Result<Vec<String>, String>,
)
    requires
        call_ensures(cli::units_to_boot, (&p, false, units), some),
        call_ensures(cli::units_to_boot, (&p, true, units), all),
    ensures
        all is Ok && text::texts(all->Ok_0@) == p.units.names(),
        some is Ok <==> forall|i: int|
            0 <= i < units@.len() ==> p.units@.dom().contains((#[trigger] units@[i])@),
        some is Ok ==> some->Ok_0 == units,
{
    let s = text::texts(units@);
    let u = psyfile::units_view(p.units@);
    lemma_first_unknown(s, u);
    assert forall|i: int| 0 <= i < units@.len() implies (u.dom().contains(s[i])
        <==> p.units@.dom().contains((#[trigger] units@[i])@)) by {
        assert(s[i] == units@[i]@);
    }
    if some is Ok {
        assert forall|i: int| 0 <= i < units@.len() implies p.units@.dom().contains(
            (#[trigger] units@[i])@,
        ) by {
            assert(u.dom().contains(s[i]));
        }
    } else {
        let i = choose|i: int| 0 <= i < s.len() && !u.dom().contains(#[trigger] s[i]);
        assert(!p.units@.dom().contains(units@[i]@));
    }
}

proof fn lemma_first_unknown(names: Seq<Seq<char>>, units: Map<Seq<char>, psyfile::UnitView>)
    ensures
        cli::first_unknown(names, units) is None <==> forall|i: int|
            0 <= i < names.len() ==> units.dom().contains(#[trigger] names[i]),
    decreases names.len(),
{
    if names.len() > 0 {
        let rest = names.skip(1);
        lemma_first_unknown(rest, units);
        if units.dom().contains(names[0]) {
            if cli::first_unknown(rest, units) is None {
                assert forall|i: int| 0 <= i < names.len() implies units.dom().contains(
                    #[trigger] names[i],
                ) by {
                    if i > 0 {
                        assert(rest[i - 1] == names[i]);
                    }
                }
            } else {
                let i = choose|i: int|
                    0 <= i < rest.len() && !units.dom().contains(#[trigger] rest[i]);
                assert(names[i + 1] == rest[i]);
            }
        }
    }
}

/// A failure is shown as an error with its reason, and a success is none.
pub proof fn lemma_error_is_shown(
    r: Response,
    out: Option<String>,
    shown: Result<Option<String>, String>,
    attached: Option<String>,
)
    requires
        call_ensures(cli::answer_error, (&r,), out),
        call_ensures(cli::print_answer, (&r,), shown),
        call_ensures(client::attach_error, (&r,), attached),
    ensures
        out is None <==> r.ok,
        shown is Ok <==> r.ok,
        attached is None <==> r.ok,
        !r.ok && r.error is Some ==> text::ends_with(out->0@, r.error->0@) && shown->Err_0@
            == out->0@ && attached->0@ == r.error->0@,
        r.ok ==> (shown->Ok_0 is Some <==> r.data is Some),
{
    if !r.ok && r.error is Some {
        let e = r.error->0@;
        let m = "error: "@ + e;
        assert(text::opt_text(out) == Some(m));
        assert(m.subrange(m.len() - e.len(), m.len() as int) =~= e);
    }
    assert(text::opt_text(out) is None <==> r.ok);
    assert(text::opt_text(attached) is None <==> r.ok);
    if r.ok {
        assert(text::opt_text(shown->Ok_0) is Some <==> r.data is Some);
    }
}

// ---------------------------------------------------------------------------
// Finding a root
// ---------------------------------------------------------------------------

/// Two chains of processes are as far apart as the own chain goes on behind the last
/// process of the other that it has, and not related where it has none.
pub proof fn lemma_chain_distance(own: Vec<u32>, other: Vec<u32>, r: Option<usize>)
    requires
        call_ensures(client::chain_distance, (&own, &other), r),
    ensures
        r is None <==> forall|i: int| 0 <= i < other@.len() ==> !own@.contains(#[trigger] other@[i]),
        r matches Some(d) ==> d < own@.len() && exists|i: int|
            0 <= i < other@.len() && #[trigger] other@[i] == own@[own@.len() - 1 - d]
                && !own@.skip(own@.len() - d).contains(other@[i]) && forall|j: int|
                    i < j < other@.len() ==> !own@.contains(#[trigger] other@[j]),
{
    lemma_distance(own@, other@);
}

proof fn lemma_last_place(chain: Seq<u32>, pid: u32)
    ensures
        -1 <= client::last_place(chain, pid) < chain.len(),
        client::last_place(chain, pid) >= 0 <==> chain.contains(pid),
        client::last_place(chain, pid) >= 0 ==> chain[client::last_place(chain, pid)] == pid
            && !chain.skip(client::last_place(chain, pid) + 1).contains(pid),
    decreases chain.len(),
{
    if chain.len() > 0 {
        let rest = chain.drop_last();
        if chain.last() == pid {
            assert(chain[chain.len() - 1] == pid);
            assert(chain.skip(chain.len() as int).len() == 0);
        } else {
            lemma_last_place(rest, pid);
            let p = client::last_place(rest, pid);
            if chain.contains(pid) {
                let i = chain.index_of(pid);
                assert(rest[i] == pid);
            }
            if p >= 0 {
                assert(chain[p] == pid);
                let t = chain.skip(p + 1);
                if t.contains(pid) {
                    let j = t.index_of(pid);
                    assert(t[j] == chain[p + 1 + j]);
                    assert(rest.skip(p + 1)[j] == pid);
                }
            }
        }
    }
}

proof fn lemma_distance(own: Seq<u32>, other: Seq<u32>)
    ensures
        client::distance(own, other) is None <==> forall|i: int|
            0 <= i < other.len() ==> !own.contains(#[trigger] other[i]),
        client::distance(own, other) matches Some(d) ==> 0 <= d < own.len() && exists|i: int|
            0 <= i < other.len() && #[trigger] other[i] == own[own.len() - 1 - d] && !own.skip(
                own.len() - d,
            ).contains(other[i]) && forall|j: int|
                i < j < other.len() ==> !own.contains(#[trigger] other[j]),
    decreases other.len(),
{
    if other.len() > 0 {
        let rest = other.drop_last();
        lemma_last_place(own, other.last());
        if client::last_place(own, other.last()) >= 0 {
            assert(own.contains(other[other.len() - 1]));
        } else {
            lemma_distance(own, rest);
            assert(!own.contains(other[other.len() - 1]));
            if client::distance(own, rest) is Some {
                let d = client::distance(own, rest)->0;
                let i = choose|i: int|
                    0 <= i < rest.len() && #[trigger] rest[i] == own[own.len() - 1 - d]
                        && !own.skip(own.len() - d).contains(rest[i]) && forall|j: int|
                            i < j < rest.len() ==> !own.contains(#[trigger] rest[j]);
                assert(other[i] == rest[i]);
                assert forall|j: int| i < j < other.len() implies !own.contains(
                    #[trigger] other[j],
                ) by {
                    if j < rest.len() {
                        assert(rest[j] == other[j]);
                    }
                }
                assert(own.contains(other[i]));
            } else {
                assert forall|i: int| 0 <= i < other.len() implies !own.contains(
                    #[trigger] other[i],
                ) by {
                    if i < rest.len() {
                        assert(rest[i] == other[i]);
                    }
                }
            }
        }
    }
}

/// Roots are tried from the nearest on; of those that are as near, the one whose file is
/// newer comes first.
pub proof fn lemma_nearest_first(
    own: Vec<u32>,
    anchors: Vec<Anchor>,
    extension: &str,
    r: Vec<Candidate>,
    i: int,
    j: int,
)
    requires
        call_ensures(client::discover_candidates, (&own, &anchors, extension), r),
        0 <= i < j < r@.len(),
    ensures
        r@[i].distance <= r@[j].distance,
        r@[i].distance == r@[j].distance ==> r@[i].modified >= r@[j].modified,
        r@[i].index != r@[j].index,
        r@[i].index < anchors@.len(),
        r@[i].modified == anchors@[r@[i].index as int].modified,
{
    assert(client::first(r@[i], r@[j]));
    assert(r@.contains(r@[i]));
    assert(r@.contains(r@[j]));
}

/// The socket of a root below is the one that it has registered; a process that is not
/// such a root, or has not registered, has none.
pub proof fn lemma_subroot_socket(
    all: Vec<ProcessInfo>,
    name: &str,
    r: Result<String, String>,
    i: int,
)
    requires
        call_ensures(client::subroot_socket, (&all, name), r),
        0 <= i < all@.len(),
        all@[i].name@ == name@,
        forall|j: int| 0 <= j < i ==> (#[trigger] all@[j]).name@ != name@,
    ensures
        r is Ok <==> all@[i].is_subroot && all@[i].subroot_socket is Some,
        r is Ok ==> r->Ok_0@ == all@[i].subroot_socket->0@,
{
    lemma_socket_of(all@, name@, i);
}

proof fn lemma_socket_of(s: Seq<ProcessInfo>, name: Seq<char>, i: int)
    requires
        0 <= i < s.len(),
        s[i].name@ == name,
        forall|j: int| 0 <= j < i ==> (#[trigger] s[j]).name@ != name,
    ensures
        client::socket_of(s, name) is Ok <==> s[i].is_subroot && s[i].subroot_socket is Some,
        client::socket_of(s, name) is Ok ==> client::socket_of(s, name)->Ok_0
            == s[i].subroot_socket->0@,
    decreases i,
{
    if i > 0 {
        let rest = s.skip(1);
        assert(s[0].name@ != name);
        assert(rest[i - 1] == s[i]);
        assert forall|j: int| 0 <= j < i - 1 implies (#[trigger] rest[j]).name@ != name by {
            assert(rest[j] == s[j + 1]);
        }
        lemma_socket_of(rest, name, i - 1);
    }
}

// ---------------------------------------------------------------------------
// Lines
// ---------------------------------------------------------------------------

proof fn lemma_uncut(left: Seq<u8>, chunk: Seq<u8>)
    requires
        !chunk.contains(10),
    ensures
        lines::cut(left, chunk) == (Seq::<Seq<u8>>::empty(), left + chunk),
    decreases chunk.len(),
{
    if chunk.len() == 0 {
        assert(left + chunk =~= left);
    } else {
        let rest = chunk.drop_last();
        assert forall|i: int| 0 <= i < rest.len() implies rest[i] != 10 by {
            assert(chunk.contains(chunk[i]));
        }
        lemma_uncut(left, rest);
        assert(chunk.contains(chunk[chunk.len() - 1]));
        assert((left + rest).push(chunk.last()) =~= left + chunk);
    }
}

/// A line is complete with its end, which is left off, and a carriage return before it too.
pub proof fn lemma_line_is_cut(
    c: &mut LineCutter,
    chunk: &[u8],
    r: Vec<Vec<u8>>,
    line: Seq<u8>,
)
    requires
        call_ensures(LineCutter::feed, (c, chunk), r),
        chunk@ == line.push(10),
        !line.contains(10),
    ensures
        r@.len() == 1,
        final(c)@.len() == 0,
        ({
            let all = old(c)@ + line;
            if all.len() > 0 && all.last() == 13 {
                r@[0]@ == all.drop_last()
            } else {
                r@[0]@ == all
            }
        }),
{
    assert(chunk@.drop_last() =~= line);
    lemma_uncut(old(c)@, line);
    assert(lines::contents(r@).len() == r@.len());
    assert(lines::contents(r@)[0] == r@[0]@);
}

/// What has no end of a line completes none, and waits for one.
pub proof fn lemma_nothing_is_cut(c: &mut LineCutter, chunk: &[u8], r: Vec<Vec<u8>>)
    requires
        call_ensures(LineCutter::feed, (c, chunk), r),
        !chunk@.contains(10),
    ensures
        r@.len() == 0,
        final(c)@ == old(c)@ + chunk@,
{
    lemma_uncut(old(c)@, chunk@);
    assert(lines::contents(r@).len() == r@.len());
}

/// It makes no difference in which pieces bytes come.
pub proof fn lemma_pieces(
    a: &mut LineCutter,
    b: &mut LineCutter,
    c: &mut LineCutter,
    x: &[u8],
    y: &[u8],
    xy: &[u8],
    rx: Vec<Vec<u8>>,
    ry: Vec<Vec<u8>>,
    r: Vec<Vec<u8>>,
)
    requires
        call_ensures(LineCutter::feed, (a, x), rx),
        old(b)@ == final(a)@,
        call_ensures(LineCutter::feed, (b, y), ry),
        old(c)@ == old(a)@,
        xy@ == x@ + y@,
        call_ensures(LineCutter::feed, (c, xy), r),
    ensures
        final(c)@ == final(b)@,
        r@.len() == rx@.len() + ry@.len(),
        forall|i: int| 0 <= i < rx@.len() ==> (#[trigger] r@[i])@ == rx@[i]@,
        forall|i: int| rx@.len() <= i < r@.len() ==> (#[trigger] r@[i])@ == ry@[i - rx@.len()]@,
{
    lines::lemma_chunks(old(a)@, x@, y@);
    let cr = lines::contents(r@);
    let cx = lines::contents(rx@);
    let cy = lines::contents(ry@);
    assert(cr.len() == r@.len() && cx.len() == rx@.len() && cy.len() == ry@.len());
    assert(cr =~= cx + cy);
    assert forall|i: int| 0 <= i < rx@.len() implies (#[trigger] r@[i])@ == rx@[i]@ by {
        assert(cr[i] == cx[i]);
    }
    assert forall|i: int| rx@.len() <= i < r@.len() implies (#[trigger] r@[i])@ == ry@[i
        - rx@.len()]@ by {
        assert(cr[i] == cy[i - rx@.len()]);
    }
}

/// What is left at the end is a line of its own.
pub proof fn lemma_rest_is_a_line(c: LineCutter, r: Option<Vec<u8>>)
    requires
        call_ensures(LineCutter::finish, (c,), r),
    ensures
        r is None <==> c@.len() == 0,
        r is Some ==> r->0@ == c@,
{
}

// ---------------------------------------------------------------------------
// Processes to clean up
// ---------------------------------------------------------------------------

/// A process that is announced is noted, and nothing that is noted is forgotten.
pub proof fn lemma_announced(pid: u32, line: &str, pids: &mut Vec<u32>, s: String)
    requires
        call_ensures(cleanup::announce, (pid,), s),
        line@ == s@,
        old(pids)@.no_duplicates(),
        call_ensures(cleanup::note_line, (pids, line), ()),
    ensures
        final(pids)@.contains(pid),
        forall|p: u32| old(pids)@.contains(p) ==> #[trigger] final(pids)@.contains(p),
        forall|p: u32| #[trigger]
            final(pids)@.contains(p) && p != pid ==> old(pids)@.contains(p),
        final(pids)@.no_duplicates(),
{
    cleanup::lemma_announcement_read_back(pid);
    let f = final(pids)@;
    let o = old(pids)@;
    assert(f.to_set().contains(pid));
    assert forall|p: u32| o.contains(p) implies #[trigger] f.contains(p) by {
        assert(o.to_set().contains(p));
        assert(f.to_set().contains(p));
    }
    assert forall|p: u32| #[trigger] f.contains(p) && p != pid implies o.contains(p) by {
        assert(f.to_set().contains(p));
        assert(o.to_set().contains(p));
    }
}

// ---------------------------------------------------------------------------
// Files and answers
// ---------------------------------------------------------------------------

/// A root is started with the Psyfile that its file holds, and is not started with one that
/// cannot be read or is not valid.
pub proof fn lemma_loaded_for_up(
    path: &str,
    c: String,
    e: String,
    os: Option<String>,
    r: Result<Psyfile, String>,
    loaded: Result<Psyfile, String>,
    none: Result<Psyfile, String>,
)
    requires
        call_ensures(cli::load_for_up, (path, &Ok::<String, String>(c), &os), r),
        call_ensures(psyfile::load, (path, &Ok::<String, String>(c), &os), loaded),
        call_ensures(cli::load_for_up, (path, &Err::<String, String>(e), &os), none),
    ensures
        r is Ok <==> loaded is Ok,
        r is Ok ==> psyfile::units_view(r->Ok_0.units@) == psyfile::units_view(
            loaded->Ok_0.units@,
        ),
        none is Err && text::ends_with(none->Err_0@, path@ + ": "@ + e@),
{
    let m = none->Err_0@;
    let w = path@ + ": "@ + e@;
    assert(m.subrange(m.len() - w.len(), m.len() as int) =~= w);
}

/// An anchor file holds the path of a socket, with space around it; one that holds nothing
/// is an error that names the file.
pub proof fn lemma_socket_of_an_anchor(
    anchor: &str,
    contents: &str,
    r: Result<String, String>,
    t: String,
)
    requires
        call_ensures(client::socket_in_anchor, (anchor, contents), r),
        call_ensures(text::trim, (contents,), t),
    ensures
        r is Ok <==> t@.len() > 0,
        r is Ok ==> r->Ok_0@ == t@,
        r is Err ==> text::contains(r->Err_0@, anchor@),
{
    if r is Err {
        let m = r->Err_0@;
        let h = "anchor file "@;
        assert(m.subrange(h.len() as int, (h.len() + anchor@.len()) as int) =~= anchor@);
        assert(text::occurs_at(m, anchor@, h.len() as int));
    }
}

/// What is typed goes to the root as one line, with the end of the line that was typed.
pub proof fn lemma_typed_line(line: &str, r: String)
    requires
        call_ensures(client::stdin_payload, (line,), r),
    ensures
        r@ == json::compact(
            json::written(json::object_of(seq![("stdin"@, Js::Text(line@.push('\n')))])),
        ).push('\n'),
{
    reveal_strlit("\n");
    assert(line@ + "\n"@ =~= line@.push('\n'));
    let a = json::compact(
        json::written(json::object_of(seq![("stdin"@, Js::Text(line@ + "\n"@))])),
    );
    assert(a + "\n"@ =~= a.push('\n'));
}

/// Each line of a log in an answer is shown, in order.
pub proof fn lemma_shown_log(
    data: Json,
    all: Seq<Js>,
    i: int,
    line: Json,
    shown: String,
    r: Vec<String>,
    none: Vec<String>,
)
    requires
        call_ensures(cli::show_log, (&Some(data),), r),
        call_ensures(cli::show_log, (&None,), none),
        json::member(json::model(data), "lines"@) == Some(Js::Array(all)),
        0 <= i < all.len(),
        json::model(line) == all[i],
        call_ensures(client::show_line, (&line,), shown),
    ensures
        none@.len() == 0,
        r@.len() == all.len(),
        r@[i]@ == shown@,
{
    let s = text::texts(r@);
    assert(text::texts(none@).len() == none@.len());
    assert(s.len() == r@.len());
    assert(s[i] == r@[i]@);
}

} // verus!
