//! What the tables of a Psyfile say of units.
use crate::order;
use crate::platforms;
use crate::ports;
use crate::protocol::RestartPolicy;
use crate::psyfile;
use crate::psyfile::{Psyfile, ProbeConfig, ProbeKindView, UnitDef, UnitView};
use crate::text;
use crate::time::Duration;
use crate::toml_value;
use crate::toml_value::{Toml, TomlValue};
use vstd::prelude::*;

verus! {

// ---------------------------------------------------------------------------
// Tables
// ---------------------------------------------------------------------------

/// Whether a table gives a key at most once.
pub open spec fn distinct(t: Seq<(Seq<char>, Toml)>) -> bool {
    forall|i: int, j: int| 0 <= i < j < t.len() ==> (#[trigger] t[i]).0 != (#[trigger] t[j]).0
}

/// Whether a table gives a key a value.
pub open spec fn says(t: Seq<(Seq<char>, Toml)>, key: Seq<char>, v: Toml) -> bool {
    exists|i: int| 0 <= i < t.len() && (#[trigger] t[i]).0 == key && t[i].1 == v
}

/// Whether a table does not give a key.
pub open spec fn silent(t: Seq<(Seq<char>, Toml)>, key: Seq<char>) -> bool {
    forall|i: int| 0 <= i < t.len() ==> (#[trigger] t[i]).0 != key
}

proof fn lemma_silent(t: Seq<(Seq<char>, Toml)>, key: Seq<char>)
    ensures
        toml_value::field(t, key) is None <==> silent(t, key),
    decreases t.len(),
{
    if t.len() > 0 {
        let rest = t.skip(1);
        lemma_silent(rest, key);
        if silent(t, key) {
            assert(t[0].0 != key);
            assert forall|i: int| 0 <= i < rest.len() implies (#[trigger] rest[i]).0 != key by {
                assert(rest[i] == t[i + 1]);
            }
        } else if t[0].0 != key {
            let i = choose|i: int| 0 <= i < t.len() && (#[trigger] t[i]).0 == key;
            assert(rest[i - 1] == t[i]);
        }
    }
}

proof fn lemma_says(t: Seq<(Seq<char>, Toml)>, key: Seq<char>, v: Toml)
    requires
        distinct(t),
    ensures
        toml_value::field(t, key) == Some(v) <==> says(t, key, v),
    decreases t.len(),
{
    if t.len() > 0 {
        let rest = t.skip(1);
        assert forall|i: int, j: int| 0 <= i < j < rest.len() implies (#[trigger] rest[i]).0 != (
        #[trigger] rest[j]).0 by {
            assert(rest[i] == t[i + 1] && rest[j] == t[j + 1]);
        }
        lemma_says(rest, key, v);
        if t[0].0 == key {
            if says(t, key, v) {
                let i = choose|i: int| 0 <= i < t.len() && (#[trigger] t[i]).0 == key && t[i].1 == v;
                assert(i == 0);
            }
            assert(t[0].0 == key);
        } else {
            if says(rest, key, v) {
                let i = choose|i: int|
                    0 <= i < rest.len() && (#[trigger] rest[i]).0 == key && rest[i].1 == v;
                assert(t[i + 1] == rest[i]);
            }
            if says(t, key, v) {
                let i = choose|i: int| 0 <= i < t.len() && (#[trigger] t[i]).0 == key && t[i].1 == v;
                assert(rest[i - 1] == t[i]);
            }
        }
    }
}

proof fn lemma_unknown(t: Seq<(Seq<char>, Toml)>, known: Seq<Seq<char>>)
    ensures
        psyfile::unknown_key(t, known) is None <==> forall|i: int|
            0 <= i < t.len() ==> known.contains((#[trigger] t[i]).0),
    decreases t.len(),
{
    if t.len() > 0 {
        let rest = t.skip(1);
        lemma_unknown(rest, known);
        if psyfile::unknown_key(t, known) is None {
            assert forall|i: int| 0 <= i < t.len() implies known.contains((#[trigger] t[i]).0) by {
                if i > 0 {
                    assert(rest[i - 1] == t[i]);
                }
            }
        } else if forall|i: int| 0 <= i < t.len() ==> known.contains((#[trigger] t[i]).0) {
            assert(known.contains(t[0].0));
            assert forall|i: int| 0 <= i < rest.len() implies known.contains(
                (#[trigger] rest[i]).0,
            ) by {
                assert(rest[i] == t[i + 1]);
            }
        }
    }
}

// ---------------------------------------------------------------------------
// Durations
// ---------------------------------------------------------------------------

proof fn lemma_untrimmed(s: Seq<char>)
    requires
        s.len() > 0,
        !text::is_space(s[0]),
        !text::is_space(s.last()),
    ensures
        text::trimmed(s) == s,
{
    assert(text::trim_start(s) == s);
}

/// A number with a unit is a duration: of milliseconds, seconds, minutes or hours.
pub proof fn lemma_duration(
    n: nat,
    ms: &str,
    s: &str,
    m: &str,
    h: &str,
    rms: Result<Duration, String>,
    rs: Result<Duration, String>,
    rm: Result<Duration, String>,
    rh: Result<Duration, String>,
)
    requires
        n * 3600 <= u64::MAX,
        ms@ == text::decimal(n) + "ms"@,
        s@ == text::decimal(n) + "s"@,
        m@ == text::decimal(n) + "m"@,
        h@ == text::decimal(n) + "h"@,
        call_ensures(psyfile::parse_duration, (ms,), rms),
        call_ensures(psyfile::parse_duration, (s,), rs),
        call_ensures(psyfile::parse_duration, (m,), rm),
        call_ensures(psyfile::parse_duration, (h,), rh),
    ensures
        rms is Ok && rms->Ok_0.secs * 1_000 + rms->Ok_0.nanos / 1_000_000 == n,
        rms->Ok_0.nanos % 1_000_000 == 0,
        rs is Ok && rs->Ok_0.secs == n && rs->Ok_0.nanos == 0,
        rm is Ok && rm->Ok_0.secs == 60 * n && rm->Ok_0.nanos == 0,
        rh is Ok && rh->Ok_0.secs == 3600 * n && rh->Ok_0.nanos == 0,
{
    reveal_strlit("ms");
    reveal_strlit("s");
    reveal_strlit("m");
    reveal_strlit("h");
    let d = text::decimal(n);
    text::lemma_decimal_read_back(n);
    assert(d.len() > 0);
    assert(text::is_digit(d[0]));
    assert(text::is_digit(d[d.len() - 1]));
    lemma_untrimmed(ms@);
    lemma_untrimmed(s@);
    lemma_untrimmed(m@);
    lemma_untrimmed(h@);
    assert(ms@.subrange(ms@.len() - 2, ms@.len() as int) =~= "ms"@);
    assert(ms@.take(ms@.len() - 2) =~= d);
    assert(s@.drop_last() =~= d);
    assert(m@.drop_last() =~= d);
    assert(h@.drop_last() =~= d);
    assert(s@.subrange(s@.len() - 2, s@.len() as int)[0] == d[d.len() - 1]);
    assert(m@.subrange(m@.len() - 2, m@.len() as int)[0] == d[d.len() - 1]);
    assert(h@.subrange(h@.len() - 2, h@.len() as int)[0] == d[d.len() - 1]);
    assert(text::unsigned(d, u64::MAX as nat) == Some(n));
}

/// A text is a duration only where it ends with a unit and something else stands before
/// it; the empty text is none.
pub proof fn lemma_no_duration(s: &str, r: Result<Duration, String>)
    requires
        call_ensures(psyfile::parse_duration, (s,), r),
        s@.len() == 0 || (!text::is_space(s@[0]) && !text::is_space(s@.last())),
        s@.len() <= 1 || (s@.last() != 's' && s@.last() != 'm' && s@.last() != 'h'),
    ensures
        r is Err,
{
    if s@.len() > 0 {
        lemma_untrimmed(s@);
        if s@.len() == 1 {
            reveal_strlit("ms");
            assert(s@.drop_last().len() == 0);
        } else {
            reveal_strlit("ms");
            if text::ends_with(s@, "ms"@) {
                assert(s@.subrange(s@.len() - 2, s@.len() as int)[1] == s@.last());
            }
        }
    }
}

// ---------------------------------------------------------------------------
// Units
// ---------------------------------------------------------------------------

/// A unit has the command that its table gives, and is refused without one.
pub proof fn lemma_command(
    name: &str,
    v: TomlValue,
    t: Seq<(Seq<char>, Toml)>,
    r: Result<UnitDef, String>,
)
    requires
        call_ensures(psyfile::parse_unit, (name, &v), r),
        toml_value::model(v) == Toml::Table(t),
        distinct(t),
    ensures
        r is Ok ==> says(t, "command"@, Toml::Text(r->Ok_0@.command)),
        silent(t, "command"@) ==> r is Err,
{
    lemma_silent(t, "command"@);
    if r is Ok {
        lemma_says(t, "command"@, Toml::Text(r->Ok_0@.command));
    }
}

/// A unit restarts as its table says, and never where it says nothing. Any other text is
/// refused.
pub proof fn lemma_restart_setting(
    name: &str,
    v: TomlValue,
    t: Seq<(Seq<char>, Toml)>,
    r: Result<UnitDef, String>,
    how: Seq<char>,
)
    requires
        call_ensures(psyfile::parse_unit, (name, &v), r),
        toml_value::model(v) == Toml::Table(t),
        distinct(t),
    ensures
        r is Ok && silent(t, "restart"@) ==> r->Ok_0@.restart == RestartPolicy::No,
        r is Ok && says(t, "restart"@, Toml::Text(how)) ==> {
            &&& r->Ok_0@.restart == RestartPolicy::No <==> how == "no"@
            &&& r->Ok_0@.restart == RestartPolicy::Always <==> how == "always"@
            &&& r->Ok_0@.restart == RestartPolicy::OnFailure <==> how == "on-failure"@ || how
                == "on_failure"@
        },
{
    lemma_silent(t, "restart"@);
    lemma_says(t, "restart"@, Toml::Text(how));
    reveal_strlit("no");
    reveal_strlit("always");
    reveal_strlit("on-failure");
    reveal_strlit("on_failure");
    assert("no"@.len() == 2 && "always"@.len() == 6 && "on-failure"@.len() == 10
        && "on_failure"@.len() == 10);
}

/// A unit is a template just where its table says that it is no singleton; it reads input,
/// or is a root of its own, just where the table says so.
pub proof fn lemma_flags(
    name: &str,
    v: TomlValue,
    t: Seq<(Seq<char>, Toml)>,
    r: Result<UnitDef, String>,
)
    requires
        call_ensures(psyfile::parse_unit, (name, &v), r),
        toml_value::model(v) == Toml::Table(t),
        distinct(t),
    ensures
        r is Ok ==> {
            &&& !r->Ok_0@.singleton <==> says(t, "singleton"@, Toml::Boolean(false))
            &&& r->Ok_0@.interactive <==> says(t, "interactive"@, Toml::Boolean(true))
            &&& r->Ok_0@.sub_root <==> says(t, "sub_root"@, Toml::Boolean(true))
        },
        says(t, "sub_root"@, Toml::Boolean(true)) && says(t, "interactive"@, Toml::Boolean(true))
            ==> r is Err,
{
    lemma_says(t, "singleton"@, Toml::Boolean(false));
    lemma_says(t, "interactive"@, Toml::Boolean(true));
    lemma_says(t, "sub_root"@, Toml::Boolean(true));
}

/// A unit runs in the directory that its table gives.
pub proof fn lemma_working_dir(
    name: &str,
    v: TomlValue,
    t: Seq<(Seq<char>, Toml)>,
    r: Result<UnitDef, String>,
    dir: Seq<char>,
)
    requires
        call_ensures(psyfile::parse_unit, (name, &v), r),
        toml_value::model(v) == Toml::Table(t),
        distinct(t),
        r is Ok,
    ensures
        silent(t, "working_dir"@) ==> r->Ok_0@.working_dir is None,
        says(t, "working_dir"@, Toml::Text(dir)) <==> r->Ok_0@.working_dir == Some(dir),
{
    lemma_silent(t, "working_dir"@);
    lemma_says(t, "working_dir"@, Toml::Text(dir));
}

/// A unit has a readiness probe, or a health check, just where its table has one, and it is
/// the one that the table of the probe alone stands for.
pub proof fn lemma_probes(
    name: &str,
    v: TomlValue,
    t: Seq<(Seq<char>, Toml)>,
    r: Result<UnitDef, String>,
    probe: TomlValue,
    p: Result<ProbeConfig, String>,
    h: Result<ProbeConfig, String>,
)
    requires
        call_ensures(psyfile::parse_unit, (name, &v), r),
        call_ensures(psyfile::parse_probe_config, (&probe, name, "ready"), p),
        call_ensures(psyfile::parse_probe_config, (&probe, name, "healthcheck"), h),
        toml_value::model(v) == Toml::Table(t),
        distinct(t),
    ensures
        r is Ok ==> (r->Ok_0@.ready is None <==> silent(t, "ready"@)),
        r is Ok ==> (r->Ok_0@.healthcheck is None <==> silent(t, "healthcheck"@)),
        says(t, "ready"@, toml_value::model(probe)) && p is Err ==> r is Err,
        says(t, "healthcheck"@, toml_value::model(probe)) && h is Err ==> r is Err,
        r is Ok && says(t, "ready"@, toml_value::model(probe)) ==> r->Ok_0@.ready == Some(
            p->Ok_0@,
        ),
        r is Ok && says(t, "healthcheck"@, toml_value::model(probe)) ==> r->Ok_0@.healthcheck
            == Some(h->Ok_0@),
{
    lemma_silent(t, "ready"@);
    lemma_silent(t, "healthcheck"@);
    lemma_says(t, "ready"@, toml_value::model(probe));
    lemma_says(t, "healthcheck"@, toml_value::model(probe));
}

proof fn lemma_probe_keys()
    ensures
        "exit"@ != "tcp"@,
        "exit"@ != "http"@,
        "exit"@ != "exec"@,
        "tcp"@ != "http"@,
        "tcp"@ != "exec"@,
        "http"@ != "exec"@,
        "ready"@ != "healthcheck"@,
{
    reveal_strlit("exit");
    reveal_strlit("tcp");
    reveal_strlit("http");
    reveal_strlit("exec");
    reveal_strlit("ready");
    reveal_strlit("healthcheck");
    assert("tcp"@.len() == 3 && "exit"@.len() == 4 && "http"@.len() == 4 && "exec"@.len() == 4);
    assert("http"@[0] == 'h' && "exit"@[2] == 'i' && "exec"@[2] == 'e' && "exit"@[0] == 'e');
    assert("exec"@[0] == 'e');
    assert("ready"@.len() == 5 && "healthcheck"@.len() == 11);
}

/// A probe tests what its table names: an exit code, an address, a URL or a command. A
/// number for an address is a port of this machine. Exactly one of them is named, and a
/// health check cannot wait for the exit.
pub proof fn lemma_probe_kind(
    v: TomlValue,
    name: &str,
    field: &str,
    t: Seq<(Seq<char>, Toml)>,
    r: Result<ProbeConfig, String>,
    n: i64,
    s: Seq<char>,
)
    requires
        call_ensures(psyfile::parse_probe_config, (&v, name, field), r),
        toml_value::model(v) == Toml::Table(t),
        distinct(t),
        i32::MIN <= n <= i32::MAX,
    ensures
        silent(t, "exit"@) && silent(t, "tcp"@) && silent(t, "http"@) && silent(t, "exec"@)
            ==> r is Err,
        !silent(t, "exit"@) && (field@ == "healthcheck"@ || !silent(t, "tcp"@) || !silent(
            t,
            "http"@,
        ) || !silent(t, "exec"@)) ==> r is Err,
        !silent(t, "tcp"@) && (!silent(t, "http"@) || !silent(t, "exec"@)) ==> r is Err,
        !silent(t, "http"@) && !silent(t, "exec"@) ==> r is Err,
        r is Ok && says(t, "exit"@, Toml::Integer(n)) ==> r->Ok_0@.probe == ProbeKindView::Exit(
            n as i32,
        ),
        r is Ok && says(t, "tcp"@, Toml::Text(s)) ==> r->Ok_0@.probe == ProbeKindView::Tcp(s),
        r is Ok && says(t, "tcp"@, Toml::Integer(n)) ==> r->Ok_0@.probe == ProbeKindView::Tcp(
            "localhost:"@ + text::signed_decimal(n as int),
        ),
        r is Ok && says(t, "http"@, Toml::Text(s)) ==> r->Ok_0@.probe == ProbeKindView::Http(s),
        r is Ok && says(t, "exec"@, Toml::Text(s)) ==> r->Ok_0@.probe == ProbeKindView::Exec(s),
{
    lemma_silent(t, "exit"@);
    lemma_silent(t, "tcp"@);
    lemma_silent(t, "http"@);
    lemma_silent(t, "exec"@);
    lemma_says(t, "exit"@, Toml::Integer(n));
    lemma_says(t, "tcp"@, Toml::Integer(n));
    lemma_says(t, "tcp"@, Toml::Text(s));
    lemma_says(t, "http"@, Toml::Text(s));
    lemma_says(t, "exec"@, Toml::Text(s));
    lemma_probe_keys();
}

/// A probe has the times and the number of attempts that its table gives. Where it gives
/// none, a readiness probe is tried every second and a health check every ten, both for
/// thirty seconds.
pub proof fn lemma_probe_times(
    v: TomlValue,
    name: &str,
    field: &str,
    t: Seq<(Seq<char>, Toml)>,
    r: Result<ProbeConfig, String>,
    n: i64,
    s: &str,
    d: Result<Duration, String>,
)
    requires
        call_ensures(psyfile::parse_probe_config, (&v, name, field), r),
        call_ensures(psyfile::parse_duration, (s,), d),
        toml_value::model(v) == Toml::Table(t),
        distinct(t),
        0 <= n <= u32::MAX,
    ensures
        says(t, "interval"@, Toml::Text(s@)) && d is Err ==> r is Err,
        says(t, "timeout"@, Toml::Text(s@)) && d is Err ==> r is Err,
        r is Ok && says(t, "interval"@, Toml::Text(s@)) ==> r->Ok_0.interval == d->Ok_0,
        r is Ok && says(t, "timeout"@, Toml::Text(s@)) ==> r->Ok_0.timeout == d->Ok_0,
        r is Ok && says(t, "retries"@, Toml::Integer(n)) ==> r->Ok_0.retries == Some(n as u32),
        r is Ok && silent(t, "retries"@) ==> r->Ok_0.retries is None,
        r is Ok && silent(t, "timeout"@) ==> r->Ok_0.timeout.secs == 30 && r->Ok_0.timeout.nanos
            == 0,
        r is Ok && silent(t, "interval"@) && field@ == "ready"@ ==> r->Ok_0.interval.secs == 1
            && r->Ok_0.interval.nanos == 0,
        r is Ok && silent(t, "interval"@) && field@ == "healthcheck"@ ==> r->Ok_0.interval.secs
            == 10 && r->Ok_0.interval.nanos == 0,
{
    lemma_silent(t, "interval"@);
    lemma_silent(t, "timeout"@);
    lemma_silent(t, "retries"@);
    lemma_says(t, "interval"@, Toml::Text(s@));
    lemma_says(t, "timeout"@, Toml::Text(s@));
    lemma_says(t, "retries"@, Toml::Integer(n));
    lemma_probe_keys();
    if r is Ok {
        assert(r->Ok_0@.interval == r->Ok_0.interval);
    }
}

proof fn lemma_dependency_list(name: Seq<char>, a: Seq<Toml>, i: int)
    requires
        psyfile::dependencies_of(name, a) is Ok,
        0 <= i < a.len(),
    ensures
        psyfile::dependencies_of(name, a)->Ok_0.len() == a.len(),
        psyfile::dependency_of(name, a[i]) == Ok::<psyfile::DependencyView, Seq<char>>(
            psyfile::dependencies_of(name, a)->Ok_0[i],
        ),
    decreases a.len(),
{
    reveal_with_fuel(psyfile::dependencies_of, 2);
    let rest = a.drop_last();
    if rest.len() > 0 {
        lemma_dependency_list(name, rest, 0);
    }
    if i < rest.len() {
        lemma_dependency_list(name, rest, i);
        assert(rest[i] == a[i]);
    }
}

/// A unit depends on those that its table lists, in order. One that is given as a name
/// does not restart it; one that is given as a table does where the table says so.
pub proof fn lemma_dependencies(
    name: &str,
    v: TomlValue,
    t: Seq<(Seq<char>, Toml)>,
    r: Result<UnitDef, String>,
    a: Seq<Toml>,
    i: int,
)
    requires
        call_ensures(psyfile::parse_unit, (name, &v), r),
        toml_value::model(v) == Toml::Table(t),
        distinct(t),
        r is Ok,
    ensures
        silent(t, "depends_on"@) ==> r->Ok_0@.depends_on.len() == 0,
        says(t, "depends_on"@, Toml::Array(a)) ==> r->Ok_0@.depends_on.len() == a.len(),
        says(t, "depends_on"@, Toml::Array(a)) && 0 <= i < a.len() ==> {
            let d = r->Ok_0@.depends_on[i];
            &&& a[i] matches Toml::Text(s) ==> d.name == s && !d.restart
            &&& a[i] matches Toml::Table(e) ==> distinct(e) ==> says(e, "name"@, Toml::Text(d.name))
                && (d.restart <==> says(e, "restart"@, Toml::Boolean(true)))
        },
{
    lemma_silent(t, "depends_on"@);
    lemma_says(t, "depends_on"@, Toml::Array(a));
    if says(t, "depends_on"@, Toml::Array(a)) {
        if a.len() > 0 {
            lemma_dependency_list(name@, a, 0);
        }
        if 0 <= i < a.len() {
            lemma_dependency_list(name@, a, i);
            if let Toml::Table(e) = a[i] {
                if distinct(e) {
                    lemma_says(e, "name"@, Toml::Text(r->Ok_0@.depends_on[i].name));
                    lemma_says(e, "restart"@, Toml::Boolean(true));
                }
            }
        }
    }
}

proof fn lemma_port_list(name: Seq<char>, a: Seq<Toml>, i: int)
    requires
        psyfile::ports_in(name, a) is Ok,
        0 <= i < a.len(),
    ensures
        psyfile::ports_in(name, a)->Ok_0.len() == a.len(),
        psyfile::port_of(name, a[i]) == Ok::<(Seq<char>, Option<u16>), Seq<char>>(
            psyfile::ports_in(name, a)->Ok_0[i],
        ),
    decreases a.len(),
{
    reveal_with_fuel(psyfile::ports_in, 2);
    let rest = a.drop_last();
    if rest.len() > 0 {
        lemma_port_list(name, rest, 0);
    }
    if i < rest.len() {
        lemma_port_list(name, rest, i);
        assert(rest[i] == a[i]);
    }
}

/// A unit asks for the ports that its table lists, in order, each with the number that is
/// preferred for it, if there is one.
pub proof fn lemma_ports(
    name: &str,
    v: TomlValue,
    t: Seq<(Seq<char>, Toml)>,
    r: Result<UnitDef, String>,
    a: Seq<Toml>,
    i: int,
    n: u16,
)
    requires
        call_ensures(psyfile::parse_unit, (name, &v), r),
        toml_value::model(v) == Toml::Table(t),
        distinct(t),
        r is Ok,
    ensures
        silent(t, "ports"@) ==> r->Ok_0@.ports.len() == 0,
        says(t, "ports"@, Toml::Array(a)) ==> r->Ok_0@.ports.len() == a.len(),
        says(t, "ports"@, Toml::Array(a)) && 0 <= i < a.len() ==> {
            let p = r->Ok_0@.ports[i];
            &&& a[i] matches Toml::Text(s) ==> p.0 == s && p.1 is None
            &&& a[i] matches Toml::Table(e) ==> distinct(e) ==> says(e, "name"@, Toml::Text(p.0))
                && (p.1 == Some(n) <==> says(e, "default"@, Toml::Integer(n as i64)))
        },
{
    lemma_silent(t, "ports"@);
    lemma_says(t, "ports"@, Toml::Array(a));
    if says(t, "ports"@, Toml::Array(a)) {
        if a.len() > 0 {
            lemma_port_list(name@, a, 0);
        }
        if 0 <= i < a.len() {
            lemma_port_list(name@, a, i);
            if let Toml::Table(e) = a[i] {
                if distinct(e) {
                    lemma_says(e, "name"@, Toml::Text(r->Ok_0@.ports[i].0));
                    lemma_says(e, "default"@, Toml::Integer(n as i64));
                }
            }
        }
    }
}

proof fn lemma_env_entries(
    name: Seq<char>,
    t: Seq<(Seq<char>, Toml)>,
    m: Map<Seq<char>, Seq<char>>,
    key: Seq<char>,
    value: Seq<char>,
)
    requires
        distinct(t),
        psyfile::env_entries(name, t, m) is Ok,
    ensures
        ({
            let r = psyfile::env_entries(name, t, m)->Ok_0;
            &&& says(t, key, Toml::Text(value)) ==> r.dom().contains(key) && r[key] == value
            &&& silent(t, key) ==> (r.dom().contains(key) <==> m.dom().contains(key)) && r[key]
                == m[key]
        }),
    decreases t.len(),
{
    if t.len() > 0 {
        let rest = t.skip(1);
        assert forall|i: int, j: int| 0 <= i < j < rest.len() implies (#[trigger] rest[i]).0 != (
        #[trigger] rest[j]).0 by {
            assert(rest[i] == t[i + 1] && rest[j] == t[j + 1]);
        }
        let v = t[0].1->Text_0;
        lemma_env_entries(name, rest, m.insert(t[0].0, v), key, value);
        if says(t, key, Toml::Text(value)) {
            let i = choose|i: int|
                0 <= i < t.len() && (#[trigger] t[i]).0 == key && t[i].1 == Toml::Text(value);
            if i > 0 {
                assert(rest[i - 1] == t[i]);
            } else {
                assert forall|j: int| 0 <= j < rest.len() implies (#[trigger] rest[j]).0 != key by {
                    assert(rest[j] == t[j + 1]);
                }
            }
        }
        if silent(t, key) {
            assert(t[0].0 != key);
            assert forall|j: int| 0 <= j < rest.len() implies (#[trigger] rest[j]).0 != key by {
                assert(rest[j] == t[j + 1]);
            }
        }
    }
}

/// A unit sets the variables of its table, and no others.
pub proof fn lemma_variables(
    name: &str,
    v: TomlValue,
    t: Seq<(Seq<char>, Toml)>,
    r: Result<UnitDef, String>,
    e: Seq<(Seq<char>, Toml)>,
    key: Seq<char>,
    value: Seq<char>,
)
    requires
        call_ensures(psyfile::parse_unit, (name, &v), r),
        toml_value::model(v) == Toml::Table(t),
        distinct(t),
        distinct(e),
        r is Ok,
    ensures
        silent(t, "env"@) ==> !r->Ok_0@.env.dom().contains(key),
        says(t, "env"@, Toml::Table(e)) && says(e, key, Toml::Text(value))
            ==> r->Ok_0@.env.dom().contains(key) && r->Ok_0@.env[key] == value,
        says(t, "env"@, Toml::Table(e)) && silent(e, key) ==> !r->Ok_0@.env.dom().contains(key),
{
    lemma_silent(t, "env"@);
    lemma_says(t, "env"@, Toml::Table(e));
    if says(t, "env"@, Toml::Table(e)) {
        lemma_env_entries(name@, e, Map::empty(), key, value);
    }
}

/// A table with a key that units do not have is refused.
pub proof fn lemma_unknown_key_is_refused(
    name: &str,
    v: TomlValue,
    t: Seq<(Seq<char>, Toml)>,
    r: Result<UnitDef, String>,
    i: int,
)
    requires
        call_ensures(psyfile::parse_unit, (name, &v), r),
        toml_value::model(v) == Toml::Table(t),
        0 <= i < t.len(),
        t[i].0 != "command"@,
        t[i].0 != "restart"@,
        t[i].0 != "env"@,
        t[i].0 != "depends_on"@,
        t[i].0 != "singleton"@,
        t[i].0 != "interactive"@,
        t[i].0 != "ports"@,
        t[i].0 != "sub_root"@,
        t[i].0 != "working_dir"@,
        t[i].0 != "ready"@,
        t[i].0 != "healthcheck"@,
    ensures
        r is Err,
{
    lemma_unknown(t, psyfile::unit_fields());
    assert(!psyfile::unit_fields().contains(t[i].0));
}

/// A command alone makes a unit.
pub proof fn lemma_command_is_enough(
    name: &str,
    v: TomlValue,
    command: Seq<char>,
    r: Result<UnitDef, String>,
)
    requires
        call_ensures(psyfile::parse_unit, (name, &v), r),
        toml_value::model(v) == Toml::Table(seq![("command"@, Toml::Text(command))]),
    ensures
        r is Ok,
        r->Ok_0@.command == command,
        r->Ok_0@.singleton,
        !r->Ok_0@.interactive,
        !r->Ok_0@.sub_root,
        r->Ok_0@.restart == RestartPolicy::No,
{
    let t = seq![("command"@, Toml::Text(command))];
    lemma_unknown(t, psyfile::unit_fields());
    assert(psyfile::unit_fields()[0] == "command"@);
    reveal_strlit("command");
    reveal_strlit("restart");
    reveal_strlit("env");
    reveal_strlit("depends_on");
    reveal_strlit("ports");
    reveal_strlit("ready");
    reveal_strlit("healthcheck");
    reveal_strlit("singleton");
    reveal_strlit("interactive");
    reveal_strlit("sub_root");
    assert("command"@.len() == 7 && "restart"@.len() == 7 && "command"@[0] == 'c' && "restart"@[0]
        == 'r');
    assert("env"@.len() == 3 && "depends_on"@.len() == 10 && "ports"@.len() == 5 && "ready"@.len()
        == 5 && "healthcheck"@.len() == 11);
    assert("singleton"@.len() == 9 && "interactive"@.len() == 11 && "sub_root"@.len() == 8);
    lemma_silent(t, "restart"@);
    lemma_silent(t, "env"@);
    lemma_silent(t, "depends_on"@);
    lemma_silent(t, "ports"@);
    lemma_silent(t, "ready"@);
    lemma_silent(t, "healthcheck"@);
    lemma_silent(t, "singleton"@);
    lemma_silent(t, "interactive"@);
    lemma_silent(t, "sub_root"@);
    lemma_says(t, "command"@, Toml::Text(command));
    assert(t[0].0 == "command"@);
}

// ---------------------------------------------------------------------------
// Documents
// ---------------------------------------------------------------------------

proof fn lemma_units(
    t: Seq<(Seq<char>, Toml)>,
    m: Map<Seq<char>, UnitView>,
    i: int,
    name: Seq<char>,
)
    requires
        distinct(t),
        psyfile::units_of(t, m) is Ok,
    ensures
        ({
            let r = psyfile::units_of(t, m)->Ok_0;
            &&& 0 <= i < t.len() ==> r.dom().contains(t[i].0) && psyfile::unit_of(t[i].0, t[i].1)
                == Ok::<UnitView, Seq<char>>(r[t[i].0])
            &&& silent(t, name) ==> (r.dom().contains(name) <==> m.dom().contains(name))
                && r[name] == m[name]
        }),
    decreases t.len(),
{
    if t.len() > 0 {
        let rest = t.skip(1);
        assert forall|i: int, j: int| 0 <= i < j < rest.len() implies (#[trigger] rest[i]).0 != (
        #[trigger] rest[j]).0 by {
            assert(rest[i] == t[i + 1] && rest[j] == t[j + 1]);
        }
        let next = m.insert(t[0].0, psyfile::unit_of(t[0].0, t[0].1)->Ok_0);
        lemma_units(rest, next, i - 1, name);
        if 0 < i < t.len() {
            assert(rest[i - 1] == t[i]);
        }
        assert forall|j: int| 0 <= j < rest.len() implies (#[trigger] rest[j]).0 != t[0].0 by {
            assert(rest[j] == t[j + 1]);
        }
        lemma_units(rest, next, i - 1, t[0].0);
        if silent(t, name) {
            assert(t[0].0 != name);
            assert forall|j: int| 0 <= j < rest.len() implies (#[trigger] rest[j]).0 != name by {
                assert(rest[j] == t[j + 1]);
            }
            lemma_units(rest, next, i - 1, name);
        }
    }
}

/// A document has a unit for each of its tables, with all that the table says, and no
/// other. Beyond what the table lists, a unit depends only on those whose ports it refers
/// to.
pub proof fn lemma_document(
    v: TomlValue,
    t: Seq<(Seq<char>, Toml)>,
    r: Result<Psyfile, String>,
    i: int,
    key: &str,
    value: TomlValue,
    u: Result<UnitDef, String>,
    other: Seq<char>,
)
    requires
        call_ensures(psyfile::parse_document, (&v,), r),
        toml_value::model(v) == Toml::Table(t),
        distinct(t),
        r is Ok,
        0 <= i < t.len(),
        t[i].0 == key@,
        t[i].1 == toml_value::model(value),
        call_ensures(psyfile::parse_unit, (key, &value), u),
    ensures
        u is Ok,
        r->Ok_0.units@.dom().contains(key@),
        r->Ok_0.units@[key@]@.command == u->Ok_0@.command,
        r->Ok_0.units@[key@]@.restart == u->Ok_0@.restart,
        r->Ok_0.units@[key@]@.env == u->Ok_0@.env,
        r->Ok_0.units@[key@]@.singleton == u->Ok_0@.singleton,
        r->Ok_0.units@[key@]@.interactive == u->Ok_0@.interactive,
        r->Ok_0.units@[key@]@.ports == u->Ok_0@.ports,
        r->Ok_0.units@[key@]@.sub_root == u->Ok_0@.sub_root,
        r->Ok_0.units@[key@]@.working_dir == u->Ok_0@.working_dir,
        r->Ok_0.units@[key@]@.ready == u->Ok_0@.ready,
        r->Ok_0.units@[key@]@.healthcheck == u->Ok_0@.healthcheck,
        silent(t, other) ==> !r->Ok_0.units@.dom().contains(other),
        r->Ok_0.units@[key@]@.depends_on.len() >= u->Ok_0@.depends_on.len(),
        forall|j: int|
            0 <= j < r->Ok_0.units@[key@]@.depends_on.len() ==> {
                let d = #[trigger] r->Ok_0.units@[key@]@.depends_on[j];
                if j < u->Ok_0@.depends_on.len() {
                    d.name == u->Ok_0@.depends_on[j].name && (u->Ok_0@.depends_on[j].restart
                        ==> d.restart) && (d.restart ==> u->Ok_0@.depends_on[j].restart
                        || u->Ok_0@.port_units.contains(d.name))
                } else {
                    d.restart && u->Ok_0@.port_units.contains(d.name)
                }
            },
{
    lemma_units(t, Map::empty(), i, other);
    let m = psyfile::units_of(t, Map::empty())->Ok_0;
    let uv = psyfile::units_view(r->Ok_0.units@);
    assert(uv == m.map_values(|u: UnitView| psyfile::linked(u)));
    assert(uv.dom().contains(key@) <==> m.dom().contains(key@));
    assert(uv[key@] == psyfile::linked(m[key@]));
    assert(uv[key@] == r->Ok_0.units@[key@]@);
    assert(uv.dom().contains(other) <==> r->Ok_0.units@.dom().contains(other));
    assert(uv.dom().contains(other) <==> m.dom().contains(other));
    let w = u->Ok_0@;
    lemma_completed(psyfile::implied(w.depends_on, w.port_units), w.port_units);
}

proof fn lemma_completed(deps: Seq<psyfile::DependencyView>, refs: Seq<Seq<char>>)
    ensures
        ({
            let c = psyfile::completed(deps, refs);
            &&& c.len() >= deps.len()
            &&& forall|j: int| 0 <= j < deps.len() ==> #[trigger] c[j] == deps[j]
            &&& forall|j: int|
                deps.len() <= j < c.len() ==> (#[trigger] c[j]).restart && refs.contains(c[j].name)
        }),
    decreases refs.len(),
{
    if refs.len() > 0 {
        let rest = refs.drop_last();
        lemma_completed(deps, rest);
        let b = psyfile::completed(deps, rest);
        let c = psyfile::completed(deps, refs);
        assert forall|j: int| deps.len() <= j < c.len() implies (#[trigger] c[j]).restart
            && refs.contains(c[j].name) by {
            if j < b.len() {
                assert(c[j] == b[j]);
                let k = rest.index_of(b[j].name);
                assert(refs[k] == b[j].name);
            } else {
                assert(refs[refs.len() - 1] == c[j].name);
            }
        }
    }
}

/// A document that is no table is refused.
pub proof fn lemma_document_is_a_table(v: TomlValue, r: Result<Psyfile, String>)
    requires
        call_ensures(psyfile::parse_document, (&v,), r),
        !(toml_value::model(v) is Table),
    ensures
        r is Err,
{
}

// ---------------------------------------------------------------------------
// References to ports
// ---------------------------------------------------------------------------

proof fn lemma_mentioned(s: Seq<Seq<char>>, i: int, x: Seq<char>)
    requires
        0 <= i < s.len(),
        ports::units_in(s[i]).contains(x),
    ensures
        psyfile::mentioned(s).contains(x),
    decreases s.len(),
{
    let a = psyfile::mentioned(s.drop_last());
    let b = ports::units_in(s.last());
    let all = a + b;
    assert(psyfile::mentioned(s) == all);
    if i == s.len() - 1 {
        let k = b.index_of(x);
        assert(all[a.len() + k] == x);
    } else {
        assert(s.drop_last()[i] == s[i]);
        lemma_mentioned(s.drop_last(), i, x);
        let k = a.index_of(x);
        assert(all[k] == x);
    }
}

proof fn lemma_probe_text(p: psyfile::ProbeView)
    ensures
        p.probe matches ProbeKindView::Tcp(a) ==> psyfile::probe_texts(Some(p)) == seq![a],
        p.probe matches ProbeKindView::Http(a) ==> psyfile::probe_texts(Some(p)) == seq![a],
        p.probe matches ProbeKindView::Exec(a) ==> psyfile::probe_texts(Some(p)) == seq![a],
{
}

/// A unit refers to another where its command or one of its probes has a reference to a
/// port of that one.
pub proof fn lemma_references_are_noted(
    name: &str,
    v: TomlValue,
    t: Seq<(Seq<char>, Toml)>,
    r: Result<UnitDef, String>,
    s: &str,
    named: Vec<String>,
    x: Seq<char>,
)
    requires
        call_ensures(psyfile::parse_unit, (name, &v), r),
        toml_value::model(v) == Toml::Table(t),
        r is Ok,
        call_ensures(ports::units_named, (s,), named),
        text::texts(named@).contains(x),
    ensures
        r->Ok_0@.command == s@ ==> r->Ok_0@.port_units.contains(x),
        r->Ok_0@.ready is Some && (r->Ok_0@.ready->0.probe == ProbeKindView::Tcp(s@)
            || r->Ok_0@.ready->0.probe == ProbeKindView::Http(s@) || r->Ok_0@.ready->0.probe
            == ProbeKindView::Exec(s@)) ==> r->Ok_0@.port_units.contains(x),
        r->Ok_0@.healthcheck is Some && (r->Ok_0@.healthcheck->0.probe == ProbeKindView::Tcp(s@)
            || r->Ok_0@.healthcheck->0.probe == ProbeKindView::Http(s@)
            || r->Ok_0@.healthcheck->0.probe == ProbeKindView::Exec(s@))
            ==> r->Ok_0@.port_units.contains(x),
{
    let u = r->Ok_0@;
    let env = psyfile::env_texts(t);
    let one = psyfile::probe_texts(u.ready);
    let two = psyfile::probe_texts(u.healthcheck);
    let all = seq![u.command] + env + one + two;
    assert(psyfile::texts_with_ports(u, t) =~= all);
    assert(u.port_units == psyfile::mentioned(all));
    if u.command == s@ {
        assert(all[0] == s@);
        lemma_mentioned(all, 0, x);
    }
    if u.ready is Some && (u.ready->0.probe == ProbeKindView::Tcp(s@) || u.ready->0.probe
        == ProbeKindView::Http(s@) || u.ready->0.probe == ProbeKindView::Exec(s@)) {
        lemma_probe_text(u.ready->0);
        assert(all[1 + env.len() as int] == s@);
        lemma_mentioned(all, 1 + env.len() as int, x);
    }
    if u.healthcheck is Some && (u.healthcheck->0.probe == ProbeKindView::Tcp(s@)
        || u.healthcheck->0.probe == ProbeKindView::Http(s@) || u.healthcheck->0.probe
        == ProbeKindView::Exec(s@)) {
        lemma_probe_text(u.healthcheck->0);
        assert(all[1 + env.len() as int + one.len()] == s@);
        lemma_mentioned(all, 1 + env.len() as int + one.len(), x);
    }
}

/// In a document, a unit depends on each unit whose ports it refers to, and restarts with
/// it.
pub proof fn lemma_reference_is_a_dependency(
    v: TomlValue,
    t: Seq<(Seq<char>, Toml)>,
    r: Result<Psyfile, String>,
    i: int,
    key: &str,
    value: TomlValue,
    u: Result<UnitDef, String>,
    x: Seq<char>,
)
    requires
        call_ensures(psyfile::parse_document, (&v,), r),
        toml_value::model(v) == Toml::Table(t),
        distinct(t),
        r is Ok,
        0 <= i < t.len(),
        t[i].0 == key@,
        t[i].1 == toml_value::model(value),
        call_ensures(psyfile::parse_unit, (key, &value), u),
        u is Ok,
        u->Ok_0@.port_units.contains(x),
    ensures
        exists|j: int|
            0 <= j < r->Ok_0.units@[key@]@.depends_on.len() && (
            #[trigger] r->Ok_0.units@[key@]@.depends_on[j]).name == x
                && r->Ok_0.units@[key@]@.depends_on[j].restart,
{
    lemma_units(t, Map::empty(), i, x);
    let m = psyfile::units_of(t, Map::empty())->Ok_0;
    let uv = psyfile::units_view(r->Ok_0.units@);
    assert(uv == m.map_values(|u: UnitView| psyfile::linked(u)));
    assert(m.dom().contains(key@));
    assert(uv.dom().contains(key@));
    assert(uv[key@] == psyfile::linked(m[key@]));
    assert(uv[key@] == r->Ok_0.units@[key@]@);
    let w = u->Ok_0@;
    let k = w.port_units.index_of(x);
    psyfile::lemma_port_reference(w, k);
    let d = psyfile::linked(w).depends_on;
    let j = choose|j: int| 0 <= j < d.len() && (#[trigger] d[j]).name == x && d[j].restart;
    assert(r->Ok_0.units@[key@]@.depends_on[j].name == x);
}

// ---------------------------------------------------------------------------
// Files
// ---------------------------------------------------------------------------

/// A Psyfile says what its text says on the operating system; a text that is no TOML is
/// refused, and so is a file that cannot be read.
pub proof fn lemma_psyfile_text(
    content: &str,
    os: Option<String>,
    v: Result<TomlValue, String>,
    d: Result<TomlValue, String>,
    u: Result<Psyfile, String>,
    r: Result<Psyfile, String>,
    path: &str,
    c: String,
    e: String,
    file: Result<Psyfile, String>,
    none: Result<Psyfile, String>,
)
    requires
        call_ensures(psyfile::parse_str_on, (content, &os), r),
        call_ensures(toml_value::read, (content,), v),
        v is Ok ==> call_ensures(platforms::resolve, (v->Ok_0, &os), d),
        v is Ok && d is Ok ==> call_ensures(psyfile::parse_document, (&d->Ok_0,), u),
        c@ == content@,
        call_ensures(psyfile::parse, (path, &Ok::<String, String>(c), &os), file),
        call_ensures(psyfile::parse, (path, &Err::<String, String>(e), &os), none),
    ensures
        r is Ok <==> v is Ok && d is Ok && u is Ok,
        r is Ok ==> psyfile::units_view(r->Ok_0.units@) == psyfile::units_view(u->Ok_0.units@),
        file is Ok <==> r is Ok,
        file is Ok ==> psyfile::units_view(file->Ok_0.units@) == psyfile::units_view(
            r->Ok_0.units@,
        ),
        none is Err && text::ends_with(none->Err_0@, e@) && text::contains(none->Err_0@, path@),
{
    let m = none->Err_0@;
    let h = "cannot read "@;
    assert(m.subrange(m.len() - e@.len(), m.len() as int) =~= e@);
    assert(m.subrange(h.len() as int, (h.len() + path@.len()) as int) =~= path@);
    assert(text::occurs_at(m, path@, h.len() as int));
}

/// A Psyfile that is loaded says what its text says and is valid; one that is not valid is
/// not loaded.
pub proof fn lemma_loaded(
    path: &str,
    c: String,
    os: Option<String>,
    r: Result<Psyfile, String>,
    p: Result<Psyfile, String>,
    ok: Result<(), String>,
)
    requires
        call_ensures(psyfile::load, (path, &Ok::<String, String>(c), &os), r),
        call_ensures(psyfile::parse, (path, &Ok::<String, String>(c), &os), p),
        p is Ok ==> call_ensures(order::validate, (&p->Ok_0,), ok),
    ensures
        r is Ok <==> p is Ok && ok is Ok,
        r is Ok ==> psyfile::units_view(r->Ok_0.units@) == psyfile::units_view(p->Ok_0.units@),
{
    if let Ok(x) = p {
        x.units.lemma_names();
        let units = psyfile::units_view(x.units@);
        assert forall|k: Seq<char>| #[trigger] units.dom().contains(k) <==> x.units.names().contains(
            k,
        ) by {
            assert(units.dom().contains(k) <==> x.units@.dom().contains(k));
        }
        order::lemma_validation(units, x.units.names());
    }
}

proof fn lemma_env_entry(
    name: Seq<char>,
    e: Seq<(Seq<char>, Toml)>,
    m: Map<Seq<char>, Seq<char>>,
    k: Seq<char>,
)
    requires
        psyfile::env_entries(name, e, m) is Ok,
        psyfile::env_entries(name, e, m)->Ok_0.dom().contains(k),
        !m.dom().contains(k),
    ensures
        e.contains((k, Toml::Text(psyfile::env_entries(name, e, m)->Ok_0[k]))),
    decreases e.len(),
{
    let r = psyfile::env_entries(name, e, m)->Ok_0;
    if e.len() > 0 {
        if let Toml::Text(v) = e[0].1 {
            let rest = e.skip(1);
            let more = m.insert(e[0].0, v);
            if e[0].0 == k {
                lemma_env_kept(name, rest, more, k);
                if r[k] == v {
                    assert(e[0] == (k, Toml::Text(r[k])));
                } else {
                    let i = rest.index_of((k, Toml::Text(r[k])));
                    assert(e[i + 1] == rest[i]);
                }
            } else {
                lemma_env_entry(name, rest, more, k);
                let i = rest.index_of((k, Toml::Text(r[k])));
                assert(e[i + 1] == rest[i]);
            }
        }
    }
}

proof fn lemma_env_kept(
    name: Seq<char>,
    e: Seq<(Seq<char>, Toml)>,
    m: Map<Seq<char>, Seq<char>>,
    k: Seq<char>,
)
    requires
        psyfile::env_entries(name, e, m) is Ok,
        m.dom().contains(k),
    ensures
        psyfile::env_entries(name, e, m)->Ok_0.dom().contains(k),
        psyfile::env_entries(name, e, m)->Ok_0[k] == m[k] || e.contains(
            (k, Toml::Text(psyfile::env_entries(name, e, m)->Ok_0[k])),
        ),
    decreases e.len(),
{
    let r = psyfile::env_entries(name, e, m)->Ok_0;
    if e.len() > 0 {
        if let Toml::Text(v) = e[0].1 {
            let rest = e.skip(1);
            lemma_env_kept(name, rest, m.insert(e[0].0, v), k);
            if rest.contains((k, Toml::Text(r[k]))) {
                let i = rest.index_of((k, Toml::Text(r[k])));
                assert(e[i + 1] == rest[i]);
            } else if e[0].0 == k {
                assert(e[0] == (k, Toml::Text(r[k])));
            }
        }
    }
}

proof fn lemma_text_in_table(t: Seq<(Seq<char>, Toml)>, k: Seq<char>, s: Seq<char>)
    requires
        t.contains((k, Toml::Text(s))),
    ensures
        psyfile::texts_in_table(t).contains(s),
    decreases t.len(),
{
    let i = t.index_of((k, Toml::Text(s)));
    let rest = t.drop_last();
    let before = psyfile::texts_in_table(rest);
    let all = psyfile::texts_in_table(t);
    if i == t.len() - 1 {
        assert(all[before.len() as int] == s);
    } else {
        assert(rest[i] == t[i]);
        lemma_text_in_table(rest, k, s);
        let j = before.index_of(s);
        assert(all[j] == s);
    }
}

/// A unit refers to another where a variable that it sets has a reference to a port of that
/// one.
pub proof fn lemma_references_in_variables(
    name: &str,
    v: TomlValue,
    t: Seq<(Seq<char>, Toml)>,
    r: Result<UnitDef, String>,
    k: Seq<char>,
    s: &str,
    named: Vec<String>,
    x: Seq<char>,
)
    requires
        call_ensures(psyfile::parse_unit, (name, &v), r),
        toml_value::model(v) == Toml::Table(t),
        r is Ok,
        r->Ok_0@.env.dom().contains(k),
        r->Ok_0@.env[k] == s@,
        call_ensures(ports::units_named, (s,), named),
        text::texts(named@).contains(x),
    ensures
        r->Ok_0@.port_units.contains(x),
{
    let u = r->Ok_0@;
    let env = psyfile::env_texts(t);
    let all = psyfile::texts_with_ports(u, t);
    assert(toml_value::field(t, "env"@) is Some);
    let e = toml_value::field(t, "env"@)->0->Table_0;
    assert(u.env == psyfile::env_entries(name@, e, Map::empty())->Ok_0);
    lemma_env_entry(name@, e, Map::empty(), k);
    lemma_text_in_table(e, k, s@);
    let i = env.index_of(s@);
    assert(all[1 + i] == s@);
    lemma_mentioned(all, 1 + i, x);
}

/// A root of its own is not ready by its exit.
pub proof fn lemma_root_is_not_ready_by_exit(name: &str, v: TomlValue, r: Result<UnitDef, String>)
    requires
        call_ensures(psyfile::parse_unit, (name, &v), r),
        r is Ok,
        r->Ok_0@.sub_root,
    ensures
        r->Ok_0@.ready is Some ==> !(r->Ok_0@.ready->0.probe is Exit),
        !r->Ok_0@.interactive,
{
}

/// The number that is preferred for a port is one that a port can have.
pub proof fn lemma_port_numbers(
    name: &str,
    v: TomlValue,
    r: Result<UnitDef, String>,
    command: Seq<char>,
    port: Seq<char>,
    i: i64,
)
    requires
        call_ensures(psyfile::parse_unit, (name, &v), r),
        toml_value::model(v) == Toml::Table(
            seq![
                ("command"@, Toml::Text(command)),
                (
                    "ports"@,
                    Toml::Array(
                        seq![
                            Toml::Table(
                                seq![("name"@, Toml::Text(port)), ("default"@, Toml::Integer(i))],
                            ),
                        ],
                    ),
                ),
            ],
        ),
    ensures
        r is Ok <==> 0 <= i <= 65535,
        r is Ok ==> r->Ok_0@.ports == seq![(port, Some(i as u16))],
{
    reveal_strlit("command");
    reveal_strlit("restart");
    reveal_strlit("env");
    reveal_strlit("depends_on");
    reveal_strlit("singleton");
    reveal_strlit("interactive");
    reveal_strlit("ports");
    reveal_strlit("sub_root");
    reveal_strlit("working_dir");
    reveal_strlit("ready");
    reveal_strlit("healthcheck");
    reveal_strlit("name");
    reveal_strlit("default");
    assert("command"@.len() == 7 && "restart"@.len() == 7 && "env"@.len() == 3
        && "depends_on"@.len() == 10 && "singleton"@.len() == 9 && "interactive"@.len() == 11
        && "ports"@.len() == 5 && "sub_root"@.len() == 8 && "working_dir"@.len() == 11
        && "ready"@.len() == 5 && "healthcheck"@.len() == 11 && "name"@.len() == 4
        && "default"@.len() == 7);
    assert("command"@[0] == 'c' && "restart"@[0] == 'r' && "ports"@[0] == 'p' && "ready"@[0]
        == 'r');
    let p = seq![("name"@, Toml::Text(port)), ("default"@, Toml::Integer(i))];
    let a = seq![Toml::Table(p)];
    let t = seq![("command"@, Toml::Text(command)), ("ports"@, Toml::Array(a))];
    assert(t.skip(1) =~= seq![("ports"@, Toml::Array(a))]);
    assert(t.skip(1).skip(1).len() == 0);
    assert(p.skip(1) =~= seq![("default"@, Toml::Integer(i))]);
    assert(p.skip(1).skip(1).len() == 0);
    assert(a.drop_last().len() == 0);
    reveal_with_fuel(toml_value::field, 3);
    reveal_with_fuel(psyfile::unknown_key, 3);
    reveal_with_fuel(psyfile::ports_in, 2);
    assert(psyfile::unit_fields()[0] == "command"@ && psyfile::unit_fields()[6] == "ports"@);
    assert(psyfile::port_fields()[0] == "name"@ && psyfile::port_fields()[1] == "default"@);
    assert(psyfile::unknown_key(t, psyfile::unit_fields()) is None);
    assert(psyfile::unknown_key(p, psyfile::port_fields()) is None);
    assert(toml_value::field(t, "ports"@) == Some(Toml::Array(a)));
    let got = psyfile::ports_in(name@, a);
    assert(got is Ok <==> 0 <= i <= 65535);
    if got is Ok {
        assert(got->Ok_0 =~= seq![(port, Some(i as u16))]);
    }
}

} // verus!
