//! What differs between operating systems, and where files and processes are found.
use crate::laws::units;
use crate::platform;
use crate::platform::paths;
use crate::platform::unix;
use crate::platform::windows;
use crate::platform::windows::Link;
use crate::platform::System;
use crate::platforms;
use crate::probe;
use crate::psyfile;
use crate::psyfile::{ProbeConfig, ProbeKindView};
use crate::protocol::ProbeArg;
use crate::text;
use crate::time::Duration;
use crate::toml_value;
use crate::toml_value::{Toml, TomlValue};
use vstd::prelude::*;

verus! {

// ---------------------------------------------------------------------------
// Units on an operating system
// ---------------------------------------------------------------------------

proof fn lemma_without(t: Seq<(Seq<char>, Toml)>, key: Seq<char>, other: Seq<char>)
    requires
        units::distinct(t),
    ensures
        units::distinct(platforms::without(t, key)),
        forall|i: int|
            0 <= i < platforms::without(t, key).len() ==> t.contains(
                #[trigger] platforms::without(t, key)[i],
            ),
        other != key ==> toml_value::field(platforms::without(t, key), other)
            == toml_value::field(t, other),
        toml_value::field(platforms::without(t, key), key) is None,
    decreases t.len(),
{
    if t.len() > 0 {
        let rest = t.skip(1);
        assert forall|i: int, j: int| 0 <= i < j < rest.len() implies (#[trigger] rest[i]).0 != (
        #[trigger] rest[j]).0 by {
            assert(rest[i] == t[i + 1] && rest[j] == t[j + 1]);
        }
        lemma_without(rest, key, other);
        let w = platforms::without(t, key);
        if t[0].0 == key {
            assert forall|i: int| 0 <= i < rest.len() implies (#[trigger] rest[i]).0 != key by {
                assert(rest[i] == t[i + 1]);
            }
            lemma_absent(rest, key);
            assert forall|i: int| 0 <= i < w.len() implies t.contains(#[trigger] w[i]) by {
                assert(t[i + 1] == w[i]);
            }
        } else {
            let more = platforms::without(rest, key);
            assert(w.skip(1) =~= more);
            assert(w[0] == t[0]);
            assert forall|i: int| 0 <= i < w.len() implies t.contains(#[trigger] w[i]) by {
                if i > 0 {
                    assert(w[i] == more[i - 1]);
                    let k = rest.index_of(more[i - 1]);
                    assert(t[k + 1] == w[i]);
                } else {
                    assert(t[0] == w[0]);
                }
            }
            assert forall|i: int, j: int| 0 <= i < j < w.len() implies (#[trigger] w[i]).0 != (
            #[trigger] w[j]).0 by {
                assert(w[j] == more[j - 1]);
                let k = rest.index_of(more[j - 1]);
                assert(t[k + 1] == w[j]);
                if i > 0 {
                    assert(w[i] == more[i - 1]);
                }
            }
        }
    }
}

proof fn lemma_absent(t: Seq<(Seq<char>, Toml)>, key: Seq<char>)
    requires
        units::silent(t, key),
    ensures
        toml_value::field(t, key) is None,
    decreases t.len(),
{
    if t.len() > 0 {
        let rest = t.skip(1);
        assert(t[0].0 != key);
        assert forall|i: int| 0 <= i < rest.len() implies (#[trigger] rest[i]).0 != key by {
            assert(rest[i] == t[i + 1]);
        }
        lemma_absent(rest, key);
    }
}

proof fn lemma_unit_kept(t: Seq<(Seq<char>, Toml)>, os: Option<Seq<char>>, i: int)
    requires
        units::distinct(t),
        platforms::units_on(t, os) is Ok,
        0 <= i < t.len(),
    ensures
        platforms::unit_on(t[i].0, t[i].1, os) is Ok,
        toml_value::field(platforms::units_on(t, os)->Ok_0, t[i].0) == platforms::unit_on(
            t[i].0,
            t[i].1,
            os,
        )->Ok_0,
    decreases t.len(),
{
    let rest = t.skip(1);
    let all = platforms::units_on(t, os)->Ok_0;
    let more = platforms::units_on(rest, os)->Ok_0;
    let first = platforms::unit_on(t[0].0, t[0].1, os)->Ok_0;
    assert forall|i: int, j: int| 0 <= i < j < rest.len() implies (#[trigger] rest[i]).0 != (
    #[trigger] rest[j]).0 by {
        assert(rest[i] == t[i + 1] && rest[j] == t[j + 1]);
    }
    if first is Some {
        assert(all[0].0 == t[0].0);
        assert(all.skip(1) =~= more);
    }
    if i > 0 {
        assert(rest[i - 1] == t[i]);
        lemma_unit_kept(rest, os, i - 1);
    } else if first is None {
        assert forall|j: int| 0 <= j < rest.len() implies (#[trigger] rest[j]).0 != t[0].0 by {
            assert(rest[j] == t[j + 1]);
        }
        lemma_no_unit(rest, os, t[0].0);
    }
}

proof fn lemma_no_unit(t: Seq<(Seq<char>, Toml)>, os: Option<Seq<char>>, name: Seq<char>)
    requires
        platforms::units_on(t, os) is Ok,
        units::silent(t, name),
    ensures
        toml_value::field(platforms::units_on(t, os)->Ok_0, name) is None,
    decreases t.len(),
{
    if t.len() > 0 {
        let rest = t.skip(1);
        assert(t[0].0 != name);
        assert forall|j: int| 0 <= j < rest.len() implies (#[trigger] rest[j]).0 != name by {
            assert(rest[j] == t[j + 1]);
        }
        lemma_no_unit(rest, os, name);
        let all = platforms::units_on(t, os)->Ok_0;
        if platforms::unit_on(t[0].0, t[0].1, os)->Ok_0 is Some {
            assert(all[0].0 == t[0].0);
            assert(all.skip(1) =~= platforms::units_on(rest, os)->Ok_0);
        }
    }
}

/// A unit that lists operating systems is there on those alone, and one that lists none is
/// there on all.
pub proof fn lemma_listed_systems(
    v: TomlValue,
    os: String,
    t: Seq<(Seq<char>, Toml)>,
    r: Result<TomlValue, String>,
    d: Seq<(Seq<char>, Toml)>,
    i: int,
    u: Seq<(Seq<char>, Toml)>,
    a: Seq<Toml>,
)
    requires
        call_ensures(platforms::resolve, (v, &Some(os)), r),
        toml_value::model(v) == Toml::Table(t),
        units::distinct(t),
        r is Ok,
        toml_value::model(r->Ok_0) == Toml::Table(d),
        0 <= i < t.len(),
        t[i].1 == Toml::Table(u),
        units::distinct(u),
    ensures
        toml_value::field(u, "platforms"@) is None ==> toml_value::field(d, t[i].0) is Some,
        toml_value::field(u, "platforms"@) == Some(Toml::Array(a)) ==> (toml_value::field(
            d,
            t[i].0,
        ) is Some <==> a.contains(Toml::Text(os@))),
{
    lemma_unit_kept(t, Some(os@), i);
}

/// On an operating system, what a unit says for it alone counts, what it says otherwise
/// stays, and variables are set one by one.
pub proof fn lemma_set_for_a_system(
    v: TomlValue,
    os: String,
    t: Seq<(Seq<char>, Toml)>,
    r: Result<TomlValue, String>,
    d: Seq<(Seq<char>, Toml)>,
    i: int,
    u: Seq<(Seq<char>, Toml)>,
    p: Seq<(Seq<char>, Toml)>,
    o: Seq<(Seq<char>, Toml)>,
    w: Seq<(Seq<char>, Toml)>,
    key: Seq<char>,
    x: Toml,
)
    requires
        call_ensures(platforms::resolve, (v, &Some(os)), r),
        toml_value::model(v) == Toml::Table(t),
        units::distinct(t),
        r is Ok,
        toml_value::model(r->Ok_0) == Toml::Table(d),
        0 <= i < t.len(),
        t[i].1 == Toml::Table(u),
        units::distinct(u),
        toml_value::field(u, "platform"@) == Some(Toml::Table(p)),
        toml_value::field(p, os@) == Some(Toml::Table(o)),
        units::distinct(o),
        toml_value::field(d, t[i].0) == Some(Toml::Table(w)),
        key != "platform"@,
        key != "platforms"@,
    ensures
        toml_value::field(o, key) is None ==> toml_value::field(w, key) == toml_value::field(
            u,
            key,
        ),
        key != "env"@ && toml_value::field(o, key) == Some(x) ==> toml_value::field(w, key)
            == Some(x),
        toml_value::field(o, key) is Some ==> key == "command"@ || key == "env"@ || key
            == "restart"@ || key == "depends_on"@ || key == "working_dir"@ || key == "ready"@
            || key == "healthcheck"@,
        toml_value::field(w, "platform"@) is None,
        toml_value::field(w, "platforms"@) is None,
{
    lemma_unit_kept(t, Some(os@), i);
    reveal_strlit("platforms");
    reveal_strlit("platform");
    reveal_strlit("command");
    reveal_strlit("env");
    reveal_strlit("restart");
    reveal_strlit("depends_on");
    reveal_strlit("working_dir");
    reveal_strlit("ready");
    reveal_strlit("healthcheck");
    assert("platforms"@.len() == 9 && "platform"@.len() == 8);
    assert("command"@.len() == 7 && "env"@.len() == 3 && "restart"@.len() == 7
        && "depends_on"@.len() == 10 && "working_dir"@.len() == 11 && "ready"@.len() == 5
        && "healthcheck"@.len() == 11);
    let plain = platforms::without(u, "platforms"@);
    let bare = platforms::without(plain, "platform"@);
    lemma_without(u, "platforms"@, "platform"@);
    lemma_without(u, "platforms"@, key);
    lemma_without(plain, "platform"@, key);
    lemma_without(plain, "platform"@, "platforms"@);
    platforms::lemma_fields_on(bare, o, key);
    platforms::lemma_fields_on(bare, o, "platform"@);
    platforms::lemma_fields_on(bare, o, "platforms"@);
    lemma_overridable(o, key);
    lemma_overridable(o, "platform"@);
    lemma_overridable(o, "platforms"@);
}

proof fn lemma_overridable(o: Seq<(Seq<char>, Toml)>, key: Seq<char>)
    requires
        platforms::first_fixed_field(o) is None,
    ensures
        toml_value::field(o, key) is Some ==> platforms::can_override(key),
    decreases o.len(),
{
    if o.len() > 0 {
        lemma_overridable(o.skip(1), key);
    }
}

/// The variables of a unit on an operating system are its own with those for the system
/// set in them.
pub proof fn lemma_variables_for_a_system(
    v: TomlValue,
    os: String,
    t: Seq<(Seq<char>, Toml)>,
    r: Result<TomlValue, String>,
    d: Seq<(Seq<char>, Toml)>,
    i: int,
    u: Seq<(Seq<char>, Toml)>,
    p: Seq<(Seq<char>, Toml)>,
    o: Seq<(Seq<char>, Toml)>,
    w: Seq<(Seq<char>, Toml)>,
    base: Seq<(Seq<char>, Toml)>,
    own: Seq<(Seq<char>, Toml)>,
    env: Seq<(Seq<char>, Toml)>,
    key: Seq<char>,
)
    requires
        call_ensures(platforms::resolve, (v, &Some(os)), r),
        toml_value::model(v) == Toml::Table(t),
        units::distinct(t),
        r is Ok,
        toml_value::model(r->Ok_0) == Toml::Table(d),
        0 <= i < t.len(),
        t[i].1 == Toml::Table(u),
        units::distinct(u),
        toml_value::field(u, "platform"@) == Some(Toml::Table(p)),
        toml_value::field(p, os@) == Some(Toml::Table(o)),
        units::distinct(o),
        toml_value::field(d, t[i].0) == Some(Toml::Table(w)),
        toml_value::field(u, "env"@) == Some(Toml::Table(base)),
        toml_value::field(o, "env"@) == Some(Toml::Table(own)),
        toml_value::field(w, "env"@) == Some(Toml::Table(env)),
        units::distinct(base),
        units::distinct(own),
    ensures
        toml_value::field(own, key) is Some ==> toml_value::field(env, key) == toml_value::field(
            own,
            key,
        ),
        toml_value::field(own, key) is None ==> toml_value::field(env, key) == toml_value::field(
            base,
            key,
        ),
{
    lemma_unit_kept(t, Some(os@), i);
    reveal_strlit("platforms");
    reveal_strlit("platform");
    reveal_strlit("env");
    assert("platforms"@.len() == 9 && "platform"@.len() == 8 && "env"@.len() == 3);
    let plain = platforms::without(u, "platforms"@);
    let bare = platforms::without(plain, "platform"@);
    lemma_without(u, "platforms"@, "platform"@);
    lemma_without(u, "platforms"@, "env"@);
    lemma_without(plain, "platform"@, "env"@);
    platforms::lemma_fields_on(bare, o, "env"@);
    platforms::lemma_env_merged(base, own, key);
}

// ---------------------------------------------------------------------------
// Probes of a request
// ---------------------------------------------------------------------------

/// A probe that comes with a request is read as it is meant: the same test, number of
/// attempts and times, with the usual times where it gives none.
pub proof fn lemma_probe_of_a_request(
    field: &str,
    a: ProbeArg,
    r: Result<ProbeConfig, String>,
    said: &str,
    d: Result<Duration, String>,
    none: Result<Option<ProbeConfig>, String>,
    some: Result<Option<ProbeConfig>, String>,
    port: u16,
)
    requires
        call_ensures(psyfile::read_probe, (field, &a), r),
        call_ensures(psyfile::read_opt_probe, (field, &None), none),
        call_ensures(psyfile::read_opt_probe, (field, &Some(a)), some),
        call_ensures(psyfile::parse_duration, (said,), d),
    ensures
        none is Ok && none->Ok_0 is None,
        some is Ok <==> r is Ok,
        some is Ok ==> some->Ok_0 is Some && some->Ok_0->0@ == r->Ok_0@,
        r is Ok ==> r->Ok_0.retries == a.retries,
        r is Ok && !(a@.kind is Tcp) ==> r->Ok_0@.probe == a@.kind,
        r is Ok && a@.kind is Tcp && a@.kind->Tcp_0.contains(':') ==> r->Ok_0@.probe == a@.kind,
        r is Ok && a@.kind == ProbeKindView::Tcp(text::decimal(port as nat)) ==> r->Ok_0@.probe
            == ProbeKindView::Tcp("localhost:"@ + text::decimal(port as nat)),
        a@.kind is Exit && field@ == "healthcheck"@ ==> r is Err,
        a@.interval == Some(said@) && d is Err ==> r is Err,
        a@.timeout == Some(said@) && d is Err ==> r is Err,
        r is Ok && a@.interval == Some(said@) ==> r->Ok_0.interval == d->Ok_0,
        r is Ok && a@.timeout == Some(said@) ==> r->Ok_0.timeout == d->Ok_0,
        r is Ok && a@.timeout is None ==> r->Ok_0.timeout.secs == 30 && r->Ok_0.timeout.nanos == 0,
        r is Ok && a@.interval is None && field@ == "ready"@ ==> r->Ok_0.interval.secs == 1
            && r->Ok_0.interval.nanos == 0,
        r is Ok && a@.interval is None && field@ == "healthcheck"@ ==> r->Ok_0.interval.secs == 10
            && r->Ok_0.interval.nanos == 0,
        a@.interval is None && a@.timeout is None && !(a@.kind is Exit) ==> r is Ok,
{
    reveal_strlit("ready");
    reveal_strlit("healthcheck");
    assert("ready"@.len() == 5 && "healthcheck"@.len() == 11);
    text::lemma_decimal_read_back(port as nat);
    if a@.kind is Tcp && a@.kind->Tcp_0.contains(':') {
        let t = a@.kind->Tcp_0;
        let i = t.index_of(':');
        let e = text::unsigned_digits(t);
        if t[0] == '+' {
            assert(e[i - 1] == ':');
        } else {
            assert(e[i] == ':');
        }
    }
    if r is Ok {
        assert(r->Ok_0@.interval == r->Ok_0.interval);
    }
}

// ---------------------------------------------------------------------------
// Psyfiles
// ---------------------------------------------------------------------------

/// The Psyfile that is found is there, and no place that comes before it has one.
pub proof fn lemma_psyfile_is_found(
    from: &str,
    there: Vec<String>,
    places: Vec<String>,
    r: Option<String>,
)
    requires
        call_ensures(psyfile::candidates, (from,), places),
        call_ensures(psyfile::discover, (from, &there), r),
    ensures
        r is None <==> forall|i: int|
            0 <= i < places@.len() ==> !text::texts(there@).contains((#[trigger] places@[i])@),
        r is Some ==> text::texts(there@).contains(r->0@) && exists|i: int|
            0 <= i < places@.len() && (#[trigger] places@[i])@ == r->0@ && forall|j: int|
                0 <= j < i ==> !text::texts(there@).contains((#[trigger] places@[j])@),
{
    let s = text::texts(places@);
    let t = text::texts(there@);
    lemma_first_there(s, t);
    assert(text::opt_text(r) == psyfile::first_there(s, t));
    assert forall|i: int| 0 <= i < places@.len() implies (#[trigger] places@[i])@ == s[i] by {}
    if r is Some {
        let i = choose|i: int|
            0 <= i < s.len() && #[trigger] s[i] == r->0@ && forall|j: int|
                0 <= j < i ==> !t.contains(#[trigger] s[j]);
        assert(places@[i]@ == r->0@);
        assert forall|j: int| 0 <= j < i implies !t.contains((#[trigger] places@[j])@) by {
            assert(!t.contains(s[j]));
        }
    } else {
        assert forall|i: int| 0 <= i < places@.len() implies !t.contains(
            (#[trigger] places@[i])@,
        ) by {
            assert(!t.contains(s[i]));
        }
    }
}

proof fn lemma_first_there(s: Seq<Seq<char>>, t: Seq<Seq<char>>)
    ensures
        psyfile::first_there(s, t) is None <==> forall|i: int|
            0 <= i < s.len() ==> !t.contains(#[trigger] s[i]),
        psyfile::first_there(s, t) matches Some(f) ==> t.contains(f) && exists|i: int|
            0 <= i < s.len() && #[trigger] s[i] == f && forall|j: int|
                0 <= j < i ==> !t.contains(#[trigger] s[j]),
    decreases s.len(),
{
    if s.len() > 0 {
        let rest = s.skip(1);
        if t.contains(s[0]) {
            assert(s[0] == psyfile::first_there(s, t)->0);
        } else {
            lemma_first_there(rest, t);
            if psyfile::first_there(rest, t) is Some {
                let f = psyfile::first_there(rest, t)->0;
                let i = choose|i: int|
                    0 <= i < rest.len() && #[trigger] rest[i] == f && forall|j: int|
                        0 <= j < i ==> !t.contains(#[trigger] rest[j]);
                assert(s[i + 1] == f);
                assert forall|j: int| 0 <= j < i + 1 implies !t.contains(#[trigger] s[j]) by {
                    if j > 0 {
                        assert(rest[j - 1] == s[j]);
                    }
                }
            } else {
                assert forall|i: int| 0 <= i < s.len() implies !t.contains(#[trigger] s[i]) by {
                    if i > 0 {
                        assert(rest[i - 1] == s[i]);
                    }
                }
            }
        }
    }
}

// ---------------------------------------------------------------------------
// Chains of processes
// ---------------------------------------------------------------------------

/// A file name that is made for a chain of processes is read as that chain, and the last
/// one of them is the root.
pub proof fn lemma_chain_is_kept(
    chain: Vec<u32>,
    extension: &str,
    written: String,
    name: &str,
    r: Option<Vec<u32>>,
    root: Option<u32>,
)
    requires
        chain@.len() > 0,
        call_ensures(platform::chain_filename, (&chain, extension), written),
        name@ == written@,
        call_ensures(platform::read_chain, (name, extension), r),
        call_ensures(platform::anchor_root, (&chain,), root),
    ensures
        r is Some && r->0@ == chain@,
        root == Some(chain@[chain@.len() - 1]),
        text::ends_with(written@, extension@),
{
    platform::lemma_chain_read_back(chain@, extension@);
    let s = written@;
    let e = extension@;
    assert(s.subrange(s.len() - e.len(), s.len() as int) =~= e);
}

/// A chain leads from the oldest ancestor that is known to the process itself, each one the
/// parent of the next; it ends where there is no other parent.
pub proof fn lemma_chain(
    pid: u32,
    answers: Vec<Option<u32>>,
    r: Vec<u32>,
    next: Option<u32>,
)
    requires
        call_ensures(unix::get_ancestor_chain, (pid, &answers), r),
        call_ensures(unix::next_lookup, (pid, &answers), next),
    ensures
        r@.len() >= 1,
        r@.last() == pid,
        r@.len() <= answers@.len() + 1,
        forall|i: int|
            0 <= i < r@.len() - 1 ==> answers@[i] == Some(#[trigger] r@[r@.len() - 2 - i]),
        next matches Some(p) ==> p == r@[0] && r@.len() == answers@.len() + 1,
        r@[0] > 1 && r@.len() == answers@.len() + 1 ==> next == Some(r@[0]),
        pid <= 1 ==> r@.len() == 1 && next is None,
{
    lemma_ancestors(pid, answers@);
    assert forall|i: int| 0 <= i < r@.len() - 1 implies answers@[i] == Some(
        #[trigger] r@[r@.len() - 2 - i],
    ) by {}
}

proof fn lemma_ancestors(pid: u32, answers: Seq<Option<u32>>)
    ensures
        ({
            let r = unix::ancestors(pid, answers);
            let next = unix::next_unknown(pid, answers);
            &&& r.len() >= 1
            &&& r.last() == pid
            &&& r.len() <= answers.len() + 1
            &&& forall|i: int|
                0 <= i < r.len() - 1 ==> answers[i] == Some(#[trigger] r[r.len() - 2 - i])
            &&& next matches Some(p) ==> p == r[0] && r.len() == answers.len() + 1
            &&& r[0] > 1 && r.len() == answers.len() + 1 ==> next == Some(r[0])
            &&& pid <= 1 ==> r.len() == 1 && next is None
        }),
    decreases answers.len(),
{
    if pid > 1 && answers.len() > 0 && answers[0] is Some && answers[0]->0 != pid && answers[0]->0
        != 0 {
        let p = answers[0]->0;
        let rest = answers.skip(1);
        lemma_ancestors(p, rest);
        let above = unix::ancestors(p, rest);
        let r = unix::ancestors(pid, answers);
        assert(r =~= above.push(pid));
        assert forall|i: int| 0 <= i < r.len() - 1 implies answers[i] == Some(
            #[trigger] r[r.len() - 2 - i],
        ) by {
            if i > 0 {
                assert(rest[i - 1] == answers[i]);
                assert(above[above.len() - 2 - (i - 1)] == r[r.len() - 2 - i]);
            } else {
                assert(r[r.len() - 2] == above.last());
            }
        }
    }
}

// ---------------------------------------------------------------------------
// Sockets
// ---------------------------------------------------------------------------

/// A path below a directory is the directory, a slash and the name; an absolute path stays
/// as it is.
pub proof fn lemma_path_below(dir: &str, name: &str, r: String)
    requires
        call_ensures(platform::join_path, (dir, name), r),
    ensures
        name@.len() > 0 && name@[0] == '/' ==> r@ == name@,
        (name@.len() == 0 || name@[0] != '/') && dir@.len() > 0 && dir@.last() != '/' ==> r@
            == dir@ + seq!['/'] + name@,
        (name@.len() == 0 || name@[0] != '/') && dir@.len() > 0 && dir@.last() == '/' ==> r@
            == dir@ + name@,
{
    reveal_strlit("/");
    assert("/"@ =~= seq!['/']);
}

/// Sockets lie below the runtime directory, and where there is none in a directory of the
/// user's own.
pub proof fn lemma_socket_dir(run: String, uid: u32, a: String, b: String)
    requires
        call_ensures(unix::primary_socket_dir, (&Some(run), uid), a),
        call_ensures(unix::primary_socket_dir, (&None, uid), b),
    ensures
        run@.len() > 0 && run@.last() != '/' ==> a@ == run@ + "/psy"@,
        b@ == "/tmp/psy-"@ + text::decimal(uid as nat),
{
    reveal_strlit("/");
    reveal_strlit("psy");
    reveal_strlit("/psy");
    assert("/"@ + "psy"@ =~= "/psy"@);
    if run@.len() > 0 && run@.last() != '/' {
        assert(a@ =~= run@ + "/psy"@);
    }
}

/// The owner of a socket is the process that its name tells.
pub proof fn lemma_socket_owner(name: &str, pid: u32, r: Option<u32>)
    requires
        call_ensures(unix::socket_owner, (name,), r),
        name@ == text::decimal(pid as nat) + ".sock"@,
    ensures
        r == Some(pid),
{
    reveal_strlit(".sock");
    reveal_strlit("..");
    let d = text::decimal(pid as nat);
    let s = name@;
    text::lemma_decimal_read_back(pid as nat);
    assert(text::is_digit(d[0]));
    assert(s[0] == d[0]);
    assert(".."@[0] == '.');
    lemma_last_dot(d, s);
    assert(s.take(d.len() as int) =~= d);
}

proof fn lemma_last_dot(d: Seq<char>, s: Seq<char>)
    requires
        s == d + ".sock"@,
    ensures
        unix::last_position(s, '.') == d.len(),
{
    reveal_strlit(".sock");
    reveal_with_fuel(unix::last_position, 6);
    let n = s.len() as int;
    assert(s[n - 1] == 'k' && s[n - 2] == 'c' && s[n - 3] == 'o' && s[n - 4] == 's' && s[n - 5]
        == '.');
    let a = s.drop_last();
    let b = a.drop_last();
    let c = b.drop_last();
    let e = c.drop_last();
    assert(a.last() == 'c' && b.last() == 'o' && c.last() == 's' && e.last() == '.');
}

/// The socket of a process has the number of the process in its name, wherever it lies.
pub proof fn lemma_socket_name(dir: &str, uid: u32, pid: u32, r: String)
    requires
        call_ensures(unix::socket_path, (dir, uid, pid), r),
    ensures
        text::ends_with(r@, text::decimal(pid as nat) + ".sock"@),
{
    let n = text::decimal(pid as nat) + ".sock"@;
    let s = r@;
    assert(s.subrange(s.len() - n.len(), s.len() as int) =~= n);
}

// ---------------------------------------------------------------------------
// What the system and servers tell
// ---------------------------------------------------------------------------

proof fn lemma_first_word(w: Seq<char>, rest: Seq<char>)
    requires
        w.len() > 0,
        forall|i: int| 0 <= i < w.len() ==> !text::is_space(#[trigger] w[i]),
        rest.len() > 0 ==> text::is_space(rest[0]),
    ensures
        text::words(w + rest) == seq![w] + text::words(rest),
{
    let s = w + rest;
    assert(s[0] == w[0]);
    assert(text::trim_start(s) == s);
    lemma_word_len(w, rest);
    assert(s.take(w.len() as int) =~= w);
    assert(s.skip(w.len() as int) =~= rest);
}

proof fn lemma_word_len(w: Seq<char>, rest: Seq<char>)
    requires
        forall|i: int| 0 <= i < w.len() ==> !text::is_space(#[trigger] w[i]),
        rest.len() > 0 ==> text::is_space(rest[0]),
    ensures
        text::word_len(w + rest) == w.len(),
    decreases w.len(),
{
    if w.len() == 0 {
        assert(w + rest =~= rest);
    } else {
        let s = w + rest;
        let more = w.skip(1);
        assert(s[0] == w[0]);
        assert(s.skip(1) =~= more + rest);
        assert forall|i: int| 0 <= i < more.len() implies !text::is_space(#[trigger] more[i]) by {
            assert(more[i] == w[i + 1]);
        }
        lemma_word_len(more, rest);
    }
}

proof fn lemma_space_before(s: Seq<char>)
    ensures
        text::words(seq![' '] + s) == text::words(s),
{
    let t = seq![' '] + s;
    assert(t[0] == ' ');
    assert(t.skip(1) =~= s);
    assert(text::trim_start(t) == text::trim_start(s));
}

proof fn lemma_two_words(a: Seq<char>, n: nat, rest: Seq<char>)
    requires
        a.len() > 0,
        forall|i: int| 0 <= i < a.len() ==> !text::is_space(#[trigger] a[i]),
        rest.len() > 0 ==> text::is_space(rest[0]),
    ensures
        text::words(a + (seq![' '] + (text::decimal(n) + rest))) == seq![a, text::decimal(n)]
            + text::words(rest),
{
    let d = text::decimal(n);
    text::lemma_decimal_read_back(n);
    assert forall|i: int| 0 <= i < d.len() implies !text::is_space(#[trigger] d[i]) by {
        assert(text::is_digit(d[i]));
    }
    let tail = seq![' '] + (d + rest);
    assert(tail[0] == ' ');
    lemma_first_word(a, tail);
    lemma_space_before(d + rest);
    lemma_first_word(d, rest);
    assert(seq![a] + (seq![d] + text::words(rest)) =~= seq![a, d] + text::words(rest));
}

/// The status of an answer is the number that follows the version in its first line.
pub proof fn lemma_status(
    answer: &str,
    r: Result<u16, String>,
    version: Seq<char>,
    n: u16,
    rest: Seq<char>,
)
    requires
        call_ensures(probe::parse_status, (answer,), r),
        answer@ == version + (seq![' '] + (text::decimal(n as nat) + rest)),
        version.len() > 0,
        forall|i: int| 0 <= i < version.len() ==> !text::is_space(#[trigger] version[i]),
        rest.len() > 0 ==> text::is_space(rest[0]),
    ensures
        r is Ok && r->Ok_0 == n,
{
    let s = answer@;
    let d = text::decimal(n as nat);
    text::lemma_decimal_read_back(n as nat);
    let base = version + (seq![' '] + d);
    assert(s =~= base + rest);
    text::lemma_position(s, '\n');
    let p = text::position(s, '\n') as int;
    assert(base.len() == version.len() + 1 + d.len());
    assert(text::is_digit(d[d.len() - 1]));
    assert(base[base.len() - 1] == d[d.len() - 1]);
    if p < base.len() {
        assert(s[p] == base[p]);
        if p < version.len() {
            assert(base[p] == version[p]);
            assert(!text::is_space(version[p]));
        } else if p > version.len() {
            assert(base[p] == d[p - version.len() - 1]);
            assert(text::is_digit(d[p - version.len() - 1]));
        }
        assert(text::is_space('\n'));
        assert(false);
    }
    let whole = if p < s.len() {
        s.take(p)
    } else {
        s
    };
    let line = probe::first_line(s);
    assert(text::lines(s)[0] == if p < s.len() {
        text::without_cr(s.take(p))
    } else {
        s
    });
    assert(line == if p < s.len() {
        text::without_cr(s.take(p))
    } else {
        s
    });
    assert(line.len() >= base.len()) by {
        if p == base.len() {
            assert(s.take(p).last() == base[base.len() - 1]);
        }
    }
    let k = line.len() - base.len();
    let more = rest.take(k);
    assert(line =~= version + (seq![' '] + (d + more)));
    if more.len() > 0 {
        assert(more[0] == rest[0]);
    }
    lemma_two_words(version, n as nat, more);
    let w = text::words(line);
    assert(w[1] == d);
    assert(text::unsigned(d, u16::MAX as nat) == Some(n as nat));
}

proof fn lemma_last_position(s: Seq<char>, c: char, i: int)
    requires
        0 <= i < s.len(),
        s[i] == c,
        forall|j: int| i < j < s.len() ==> s[j] != c,
    ensures
        unix::last_position(s, c) == i,
    decreases s.len(),
{
    if i < s.len() - 1 {
        let t = s.drop_last();
        assert(s[s.len() - 1] != c);
        lemma_last_position(t, c, i);
    }
}

/// The parent of a process is the second word behind the name in parentheses, whatever the
/// name holds.
pub proof fn lemma_parent(
    stat: &str,
    r: Option<u32>,
    head: Seq<char>,
    state: Seq<char>,
    parent: u32,
    rest: Seq<char>,
)
    requires
        call_ensures(unix::parent_in_stat, (stat,), r),
        stat@ == head + (seq![')'] + (seq![' '] + (state + (seq![' '] + (text::decimal(
            parent as nat,
        ) + rest))))),
        state.len() > 0,
        forall|i: int|
            0 <= i < state.len() ==> !text::is_space(#[trigger] state[i]) && state[i] != ')',
        rest.len() > 0 ==> text::is_space(rest[0]),
        !rest.contains(')'),
    ensures
        r == Some(parent),
{
    let s = stat@;
    let d = text::decimal(parent as nat);
    text::lemma_decimal_read_back(parent as nat);
    let tail = seq![' '] + (state + (seq![' '] + (d + rest)));
    assert(s == head + (seq![')'] + tail));
    assert(s[head.len() as int] == ')');
    assert forall|j: int| 0 <= j < tail.len() implies tail[j] != ')' by {
        let a = 1 + state.len() as int;
        if 0 < j < a {
            assert(tail[j] == state[j - 1]);
        } else if a < j < a + 1 + d.len() {
            assert(tail[j] == d[j - a - 1]);
            assert(text::is_digit(d[j - a - 1]));
        } else if j >= a + 1 + d.len() {
            assert(tail[j] == rest[j - a - 1 - d.len()]);
            assert(rest.contains(rest[j - a - 1 - d.len()]));
        }
    }
    assert forall|j: int| head.len() < j < s.len() implies s[j] != ')' by {
        assert(s[j] == tail[j - head.len() - 1]);
    }
    lemma_last_position(s, ')', head.len() as int);
    assert(s.skip(head.len() as int + 1) =~= tail);
    lemma_space_before(state + (seq![' '] + (d + rest)));
    lemma_two_words(state, parent as nat, rest);
    let w = text::words(tail);
    assert(w[1] == d);
    assert(text::unsigned(d, u32::MAX as nat) == Some(parent as nat));
}

// ---------------------------------------------------------------------------
// Windows
// ---------------------------------------------------------------------------

/// Whether a snapshot has one process as the parent of another, created before it as far
/// as that is known.
pub open spec fn is_parent(links: Seq<Link>, parent: u32, child: u32) -> bool {
    exists|i: int|
        0 <= i < links.len() && (#[trigger] links[i]).pid == child && links[i].parent == parent
            && (links[i].parent_created is Some && links[i].created is Some
            ==> links[i].parent_created->0 <= links[i].created->0)
}

/// On Windows too a chain leads from one parent to the next down to the process itself. No
/// process is in it twice, and it is the process alone where nothing is known.
pub proof fn lemma_windows_chain(
    pid: u32,
    links: Vec<Link>,
    r: Vec<u32>,
    none: Vec<u32>,
    i: int,
)
    requires
        call_ensures(windows::get_ancestor_chain, (pid, &Some(links)), r),
        call_ensures(windows::get_ancestor_chain, (pid, &None), none),
    ensures
        none@ == seq![pid],
        r@.len() > 0,
        r@.last() == pid,
        r@.no_duplicates(),
        0 <= i < r@.len() - 1 ==> is_parent(links@, r@[i], r@[i + 1]),
{
    windows::lemma_chain(links@, pid, Seq::empty());
    if 0 <= i < r@.len() - 1 {
        lemma_links(links@, pid, Seq::empty(), i);
    }
}

proof fn lemma_links(links: Seq<Link>, pid: u32, visited: Seq<u32>, i: int)
    requires
        0 <= i < windows::ancestors(links, pid, visited).len() - 1,
    ensures
        is_parent(
            links,
            windows::ancestors(links, pid, visited)[i],
            windows::ancestors(links, pid, visited)[i + 1],
        ),
    decreases windows::ancestors(links, pid, visited).len(),
{
    let r = windows::ancestors(links, pid, visited);
    let p = windows::above(links, pid)->0;
    let up = windows::ancestors(links, p, visited.push(pid));
    assert(r == up.push(pid));
    if i + 1 < up.len() {
        lemma_links(links, p, visited.push(pid), i);
    } else {
        lemma_link_place(links, pid);
        let k = windows::place(links, pid);
        assert(links[k].pid == pid && links[k].parent == p);
        windows::lemma_chain(links, p, visited.push(pid));
        assert(up.last() == p);
    }
}

proof fn lemma_link_place(links: Seq<Link>, pid: u32)
    ensures
        -1 <= windows::place(links, pid) < links.len(),
        windows::place(links, pid) >= 0 ==> links[windows::place(links, pid)].pid == pid,
    decreases links.len(),
{
    if links.len() > 0 && links.last().pid != pid {
        lemma_link_place(links.drop_last(), pid);
    }
}

/// On Windows a root is found by its pipe, and its anchor lies below the directory of the
/// user, else below that for temporary files.
pub proof fn lemma_windows_paths(
    pid: u32,
    local: String,
    temp: String,
    pipe: String,
    a: String,
    b: String,
    any: Option<String>,
)
    requires
        call_ensures(windows::socket_path, (pid,), pipe),
        call_ensures(windows::roots_dir, (&Some(local), &any), a),
        call_ensures(windows::roots_dir, (&None, &Some(temp)), b),
        local@.len() > 0,
        local@.last() != '\\',
        local@.last() != '/',
        temp@.len() > 0,
        temp@.last() != '\\',
        temp@.last() != '/',
    ensures
        text::ends_with(pipe@, "psy-"@ + text::decimal(pid as nat)),
        a@ == local@ + "\\psy\\roots"@,
        b@ == temp@ + "\\psy-roots"@,
{
    reveal_strlit("\\\\.\\pipe\\psy-");
    reveal_strlit("psy-");
    reveal_strlit("\\");
    reveal_strlit("psy");
    reveal_strlit("roots");
    reveal_strlit("psy-roots");
    reveal_strlit("\\psy\\roots");
    reveal_strlit("\\psy-roots");
    let d = text::decimal(pid as nat);
    let w = "psy-"@ + d;
    assert(pipe@.subrange(pipe@.len() - w.len(), pipe@.len() as int) =~= w);
    assert("psy"@.last() == 'p' || "psy"@.last() == 'y');
    assert((local@ + "\\"@ + "psy"@).last() == "psy"@.last());
    assert(a@ =~= local@ + "\\psy\\roots"@);
    assert(b@ =~= temp@ + "\\psy-roots"@);
}

/// A parent is not younger than its child.
pub proof fn lemma_parent_is_older(p: u64, c: u64, r: bool, a: bool, b: bool)
    requires
        call_ensures(windows::validate_parent_child_times, (Some(p), Some(c)), r),
        call_ensures(windows::validate_parent_child_times, (None, Some(c)), a),
        call_ensures(windows::validate_parent_child_times, (Some(p), None), b),
    ensures
        r <==> p <= c,
        a,
        b,
{
}

// ---------------------------------------------------------------------------
// Directories and anchors
// ---------------------------------------------------------------------------

proof fn lemma_only_separator(system: System, d: Seq<char>, c: char, name: Seq<char>)
    requires
        paths::is_separator(system, c),
        forall|i: int| 0 <= i < name.len() ==> !paths::is_separator(system, #[trigger] name[i]),
    ensures
        paths::last_separator(system, d + seq![c] + name) == d.len(),
    decreases name.len(),
{
    let s = d + seq![c] + name;
    if name.len() > 0 {
        assert(s.last() == name[name.len() - 1]);
        let rest = name.drop_last();
        assert(s.drop_last() =~= d + seq![c] + rest);
        assert forall|i: int| 0 <= i < rest.len() implies !paths::is_separator(
            system,
            #[trigger] rest[i],
        ) by {
            assert(rest[i] == name[i]);
        }
        lemma_only_separator(system, d, c, rest);
    } else {
        assert(s.last() == c);
    }
}

/// The directory above a file is the one that the file was put into.
pub proof fn lemma_file_in_directory(
    system: System,
    dir: &str,
    name: &str,
    file: String,
    path: Vec<char>,
    r: Option<Vec<char>>,
)
    requires
        call_ensures(paths::join_file, (system, dir, name), file),
        path@ == file@,
        call_ensures(paths::parent, (system, &path), r),
        name@.len() > 0,
        forall|i: int|
            0 <= i < name@.len() ==> #[trigger] name@[i] != '/' && name@[i] != '\\',
        system == System::Windows ==> dir@.len() > 2 && dir@[1] == ':' && 'a' <= dir@[0] <= 'z',
        dir@.len() > 0,
        dir@.last() != '/' && dir@.last() != '\\',
    ensures
        r is Some && r->0@ == dir@,
        text::starts_with(file@, dir@),
        text::ends_with(file@, name@),
        file@.len() == dir@.len() + 1 + name@.len(),
{
    reveal_strlit("/");
    reveal_strlit("\\");
    let d = dir@;
    let f = file@;
    assert("/"@ =~= seq!['/']);
    assert("\\"@ =~= seq!['\\']);
    let c = if system == System::Windows {
        '\\'
    } else {
        '/'
    };
    assert(name@[0] != '/');
    assert(f == d + seq![c] + name@);
    let n = paths::prefix_len(system, f);
    assert(f[0] == d[0]);
    if system == System::Windows {
        assert(f[1] == d[1]);
        assert(n == 2);
    }
    let rest = d.skip(n);
    let tail = f.skip(n);
    assert(tail =~= rest + seq![c] + name@);
    assert(tail.last() == name@[name@.len() - 1]);
    assert(!paths::is_separator(system, tail.last()));
    assert(paths::bare(system, tail) == tail);
    assert forall|i: int| 0 <= i < name@.len() implies !paths::is_separator(
        system,
        #[trigger] name@[i],
    ) by {}
    lemma_only_separator(system, rest, c, name@);
    assert(tail.take(rest.len() as int) =~= rest);
    assert(rest.last() == d.last());
    assert(paths::bare(system, rest) == rest);
    assert(f.take(n) + rest =~= d);
    assert(f.subrange(0, d.len() as int) =~= d);
    assert(f.subrange(f.len() - name@.len(), f.len() as int) =~= name@);
}

/// A Psyfile is looked for in a directory under its two names, then in the directories
/// above it.
pub proof fn lemma_places(
    system: System,
    from: &str,
    r: Vec<String>,
    first: String,
    second: String,
    path: Vec<char>,
    up: Option<Vec<char>>,
    above: &str,
    rest: Vec<String>,
    plain: Vec<String>,
    short: &str,
    long: &str,
)
    requires
        call_ensures(psyfile::candidates_on, (system, from), r),
        short@ == "Psyfile"@,
        long@ == "Psyfile.toml"@,
        call_ensures(paths::join_file, (system, from, short), first),
        call_ensures(paths::join_file, (system, from, long), second),
        path@ == from@,
        call_ensures(paths::parent, (system, &path), up),
        up is Some ==> above@ == up->0@,
        call_ensures(psyfile::candidates_on, (system, above), rest),
        call_ensures(psyfile::candidates, (from,), plain),
    ensures
        r@.len() >= 2,
        r@[0]@ == first@,
        r@[1]@ == second@,
        up is None ==> r@.len() == 2,
        up is Some ==> text::texts(r@).skip(2) == text::texts(rest@),
        system == System::Unix ==> text::texts(plain@) == text::texts(r@),
{
    let s = text::texts(r@);
    assert(s.len() == r@.len());
    assert(s[0] == r@[0]@);
    assert(s[1] == r@[1]@);
    if up is Some {
        assert(s.skip(2) =~= psyfile::places(system, above@));
    }
}

/// The Psyfile that is found on a system is there, and no place that comes before it has
/// one.
pub proof fn lemma_psyfile_on_a_system(
    system: System,
    from: &str,
    there: Vec<String>,
    places: Vec<String>,
    r: Option<String>,
)
    requires
        call_ensures(psyfile::candidates_on, (system, from), places),
        call_ensures(psyfile::discover_on, (system, from, &there), r),
    ensures
        r is None <==> forall|i: int|
            0 <= i < places@.len() ==> !text::texts(there@).contains(
                #[trigger] text::texts(places@)[i],
            ),
        r is Some ==> text::texts(there@).contains(r->0@) && exists|i: int|
            0 <= i < places@.len() && #[trigger] text::texts(places@)[i] == r->0@ && forall|j: int|
                0 <= j < i ==> !text::texts(there@).contains(
                    #[trigger] text::texts(places@)[j],
                ),
{
    let s = text::texts(places@);
    assert(s.len() == places@.len());
    lemma_first_there(s, text::texts(there@));
}

/// The file of an anchor has the chain of the root in its name, on each system; the socket
/// beside it has the number of the root where the name of the file is too long.
pub proof fn lemma_anchor_files(
    chain: Vec<u32>,
    dir: &str,
    a: String,
    n: &str,
    read: Option<Vec<u32>>,
    b: String,
    m: &str,
    pipe: Option<Vec<u32>>,
    u: (String, String),
    w: String,
)
    requires
        chain@.len() > 0,
        call_ensures(unix::anchor_chain_filename, (&chain,), a),
        n@ == a@,
        call_ensures(unix::parse_anchor_chain, (n,), read),
        call_ensures(windows::anchor_chain_filename, (&chain,), b),
        m@ == b@,
        call_ensures(windows::parse_anchor_chain, (m,), pipe),
        call_ensures(unix::anchor_socket_path, (dir, &chain), u),
        call_ensures(windows::anchor_file_path, (dir, &chain), w),
    ensures
        read is Some && read->0@ == chain@,
        pipe is Some && pipe->0@ == chain@,
        text::ends_with(a@, ".sock"@),
        text::ends_with(b@, ".pipe"@),
        text::ends_with(u.0@, a@),
        text::ends_with(w@, b@) && text::starts_with(w@, dir@),
        vstd::utf8::encode_utf8(u.0@).len() < unix::UNIX_SOCK_MAX ==> u.1@ == u.0@,
        vstd::utf8::encode_utf8(u.0@).len() >= unix::UNIX_SOCK_MAX ==> text::ends_with(
            u.1@,
            text::decimal(chain@.last() as nat) + ".sock"@,
        ),
{
    platform::lemma_chain_read_back(chain@, ".sock"@);
    platform::lemma_chain_read_back(chain@, ".pipe"@);
    let e = ".sock"@;
    let f = ".pipe"@;
    assert(a@.subrange(a@.len() - e.len(), a@.len() as int) =~= e);
    assert(b@.subrange(b@.len() - f.len(), b@.len() as int) =~= f);
    assert(u.0@.subrange(u.0@.len() - a@.len(), u.0@.len() as int) =~= a@);
    assert(w@.subrange(w@.len() - b@.len(), w@.len() as int) =~= b@);
    assert(w@.subrange(0, dir@.len() as int) =~= dir@);
    if vstd::utf8::encode_utf8(u.0@).len() >= unix::UNIX_SOCK_MAX {
        let k = text::decimal(chain@.last() as nat) + e;
        assert(u.1@.subrange(u.1@.len() - k.len(), u.1@.len() as int) =~= k);
    }
}

// ---------------------------------------------------------------------------
// What a system can change
// ---------------------------------------------------------------------------

/// A system can change the command of a unit, its variables, policy, dependencies,
/// directory and probes, and nothing else.
pub proof fn lemma_fields_of_a_system(
    v: TomlValue,
    os: String,
    r: Result<TomlValue, String>,
    name: Seq<char>,
    command: Toml,
    key: Seq<char>,
    x: Toml,
)
    requires
        call_ensures(platforms::resolve, (v, &Some(os)), r),
        os@ == "linux"@ || os@ == "macos"@ || os@ == "windows"@,
        toml_value::model(v) == Toml::Table(
            seq![
                (
                    name,
                    Toml::Table(
                        seq![
                            ("command"@, command),
                            (
                                "platform"@,
                                Toml::Table(seq![(os@, Toml::Table(seq![(key, x)]))]),
                            ),
                        ],
                    ),
                ),
            ],
        ),
    ensures
        r is Ok <==> key == "command"@ || key == "env"@ || key == "restart"@ || key
            == "depends_on"@ || key == "working_dir"@ || key == "ready"@ || key
            == "healthcheck"@,
{
    reveal_strlit("command");
    reveal_strlit("platform");
    reveal_strlit("platforms");
    assert("command"@.len() == 7 && "platform"@.len() == 8 && "platforms"@.len() == 9);
    let o = seq![(key, x)];
    let p = seq![(os@, Toml::Table(o))];
    let t = seq![("command"@, command), ("platform"@, Toml::Table(p))];
    let d = seq![(name, Toml::Table(t))];
    assert(t.skip(1) =~= seq![("platform"@, Toml::Table(p))]);
    assert(t.skip(1).skip(1).len() == 0);
    assert(o.skip(1).len() == 0);
    assert(p.skip(1).len() == 0);
    assert(d.skip(1).len() == 0);
    reveal_with_fuel(toml_value::field, 3);
    reveal_with_fuel(platforms::without, 3);
    reveal_with_fuel(platforms::first_unknown_system, 2);
    reveal_with_fuel(platforms::first_fixed_field, 2);
    reveal_with_fuel(platforms::units_on, 2);
    assert(toml_value::field(t, "platforms"@) is None);
    let plain = platforms::without(t, "platforms"@);
    assert(plain =~= t);
    assert(toml_value::field(plain, "platform"@) == Some(Toml::Table(p)));
    assert(toml_value::field(p, os@) == Some(Toml::Table(o)));
}

} // verus!
