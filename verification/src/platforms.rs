//! Units on different operating systems: which units there are, and what a unit
//! says there.
use crate::psyfile;
use crate::text;
use crate::toml_value;
use crate::toml_value::{Toml, TomlValue};
use vstd::prelude::*;

verus! {

/// Whether a text names an operating system.
pub open spec fn is_system(s: Seq<char>) -> bool {
    s == "linux"@ || s == "macos"@ || s == "windows"@
}

fn system(s: &str) -> (r: bool)
    ensures
        r == is_system(s@),
{
    text::same(s, "linux") || text::same(s, "macos") || text::same(s, "windows")
}

/// Whether a field can be set for one operating system alone.
pub open spec fn can_override(key: Seq<char>) -> bool {
    ||| key == "command"@
    ||| key == "env"@
    ||| key == "restart"@
    ||| key == "depends_on"@
    ||| key == "working_dir"@
    ||| key == "ready"@
    ||| key == "healthcheck"@
}

fn overridable(key: &str) -> (r: bool)
    ensures
        r == can_override(key@),
{
    text::same(key, "command") || text::same(key, "env") || text::same(key, "restart")
        || text::same(key, "depends_on") || text::same(key, "working_dir") || text::same(
        key,
        "ready",
    ) || text::same(key, "healthcheck")
}

// ---------------------------------------------------------------------------
// Tables
// ---------------------------------------------------------------------------

/// A table without its first entry under a key.
pub open spec fn without(t: Seq<(Seq<char>, Toml)>, key: Seq<char>) -> Seq<(Seq<char>, Toml)>
    decreases t.len(),
{
    if t.len() == 0 {
        t
    } else if t[0].0 == key {
        t.skip(1)
    } else {
        seq![t[0]] + without(t.skip(1), key)
    }
}

/// A table with a value under a key in place of the one it had.
pub open spec fn replaced(t: Seq<(Seq<char>, Toml)>, key: Seq<char>, v: Toml) -> Seq<
    (Seq<char>, Toml),
> {
    without(t, key).push((key, v))
}

/// A table with the entries of another one set in it.
pub open spec fn overlaid(t: Seq<(Seq<char>, Toml)>, over: Seq<(Seq<char>, Toml)>) -> Seq<
    (Seq<char>, Toml),
>
    decreases over.len(),
{
    if over.len() == 0 {
        t
    } else {
        overlaid(replaced(t, over[0].0, over[0].1), over.skip(1))
    }
}

/// The environment of a unit with that of an operating system set in it.
pub open spec fn merged_env(base: Option<Toml>, over: Toml) -> Toml {
    match (base, over) {
        (Some(Toml::Table(b)), Toml::Table(o)) => Toml::Table(overlaid(b, o)),
        _ => over,
    }
}

/// The fields of a unit with those of an operating system in their place. The
/// environments are merged.
pub open spec fn merged(t: Seq<(Seq<char>, Toml)>, over: Seq<(Seq<char>, Toml)>) -> Seq<
    (Seq<char>, Toml),
>
    decreases over.len(),
{
    if over.len() == 0 {
        t
    } else {
        let k = over[0].0;
        let v = if k == "env"@ {
            merged_env(toml_value::field(t, "env"@), over[0].1)
        } else {
            over[0].1
        };
        merged(replaced(t, k, v), over.skip(1))
    }
}

proof fn lemma_without_from(
    t: Seq<(Seq<char>, Toml)>,
    key: Seq<char>,
    i: int,
)
    requires
        0 <= i < t.len(),
        t[i].0 == key,
        forall|j: int| 0 <= j < i ==> (#[trigger] t[j]).0 != key,
    ensures
        without(t, key) == t.remove(i),
        toml_value::field(t, key) == Some(t[i].1),
    decreases i,
{
    if i > 0 {
        let rest = t.skip(1);
        assert(rest[i - 1] == t[i]);
        assert forall|j: int| 0 <= j < i - 1 implies (#[trigger] rest[j]).0 != key by {
            assert(rest[j] == t[j + 1]);
        }
        lemma_without_from(rest, key, i - 1);
        assert(seq![t[0]] + rest.remove(i - 1) =~= t.remove(i));
    } else {
        assert(t.skip(1) =~= t.remove(0));
    }
}

proof fn lemma_without_none(t: Seq<(Seq<char>, Toml)>, key: Seq<char>)
    requires
        forall|j: int| 0 <= j < t.len() ==> (#[trigger] t[j]).0 != key,
    ensures
        without(t, key) == t,
        toml_value::field(t, key) is None,
    decreases t.len(),
{
    if t.len() > 0 {
        let rest = t.skip(1);
        assert forall|j: int| 0 <= j < rest.len() implies (#[trigger] rest[j]).0 != key by {
            assert(rest[j] == t[j + 1]);
        }
        lemma_without_none(rest, key);
        assert(seq![t[0]] + rest =~= t);
    }
}

/// Takes the first entry under a key out of a table.
fn take_field(t: &mut Vec<(String, TomlValue)>, key: &str) -> (r: Option<TomlValue>)
    ensures
        toml_value::entries(final(t)@) == without(toml_value::entries(old(t)@), key@),
        match r {
            Some(v) => toml_value::field(toml_value::entries(old(t)@), key@) == Some(
                toml_value::model(v),
            ),
            None => toml_value::field(toml_value::entries(old(t)@), key@) is None,
        },
{
    let ghost all = toml_value::entries(t@);
    let mut i: usize = 0;
    while i < t.len()
        invariant
            i <= t.len(),
            t@ == old(t)@,
            all == toml_value::entries(t@),
            forall|j: int| 0 <= j < i ==> (#[trigger] all[j]).0 != key@,
        decreases t.len() - i,
    {
        if text::same(t[i].0.as_str(), key) {
            let ghost before = t@;
            let (_, v) = t.remove(i);
            proof {
                assert(all[i as int].0 == key@);
                lemma_without_from(all, key@, i as int);
                assert(toml_value::entries(t@) =~= all.remove(i as int));
            }
            return Some(v);
        }
        i += 1;
    }
    proof {
        lemma_without_none(all, key@);
    }
    None
}

fn push_field(t: &mut Vec<(String, TomlValue)>, key: String, v: TomlValue)
    ensures
        toml_value::entries(final(t)@) == toml_value::entries(old(t)@).push(
            (key@, toml_value::model(v)),
        ),
{
    let ghost before = t@;
    let ghost e = (key@, toml_value::model(v));
    t.push((key, v));
    proof {
        assert(toml_value::entries(t@) =~= toml_value::entries(before).push(e));
    }
}

fn overlay(t: &mut Vec<(String, TomlValue)>, over: Vec<(String, TomlValue)>)
    ensures
        toml_value::entries(final(t)@) == overlaid(
            toml_value::entries(old(t)@),
            toml_value::entries(over@),
        ),
{
    let mut rest = over;
    let ghost goal = overlaid(toml_value::entries(t@), toml_value::entries(over@));
    while rest.len() > 0
        invariant
            goal == overlaid(toml_value::entries(t@), toml_value::entries(rest@)),
        decreases rest.len(),
    {
        let ghost o = toml_value::entries(rest@);
        let (k, v) = rest.remove(0);
        proof {
            assert(o[0] == (k@, toml_value::model(v)));
            assert(toml_value::entries(rest@) =~= o.skip(1));
        }
        let _ = take_field(t, k.as_str());
        push_field(t, k, v);
    }
}

fn merge(t: &mut Vec<(String, TomlValue)>, over: Vec<(String, TomlValue)>)
    ensures
        toml_value::entries(final(t)@) == merged(
            toml_value::entries(old(t)@),
            toml_value::entries(over@),
        ),
{
    let mut rest = over;
    let ghost goal = merged(toml_value::entries(t@), toml_value::entries(over@));
    while rest.len() > 0
        invariant
            goal == merged(toml_value::entries(t@), toml_value::entries(rest@)),
        decreases rest.len(),
    {
        let ghost o = toml_value::entries(rest@);
        let ghost base = toml_value::entries(t@);
        let (k, v) = rest.remove(0);
        proof {
            assert(o[0] == (k@, toml_value::model(v)));
            assert(toml_value::entries(rest@) =~= o.skip(1));
        }
        let was = take_field(t, k.as_str());
        if text::same(k.as_str(), "env") {
            let ghost over_model = toml_value::model(v);
            let next = match (was, v) {
                (Some(TomlValue::Table(b)), TomlValue::Table(o)) => {
                    proof {
                        toml_value::lemma_table(TomlValue::Table(b));
                        toml_value::lemma_table(TomlValue::Table(o));
                    }
                    let mut env = b;
                    overlay(&mut env, o);
                    let joined = TomlValue::Table(env);
                    proof {
                        toml_value::lemma_table(joined);
                    }
                    joined
                },
                (None, x) => x,
                (Some(w), x) => {
                    proof {
                        toml_value::lemma_table(w);
                        toml_value::lemma_table(x);
                    }
                    x
                },
            };
            proof {
                assert(toml_value::model(next) == merged_env(
                    toml_value::field(base, "env"@),
                    over_model,
                ));
            }
            push_field(t, k, next);
        } else {
            push_field(t, k, v);
        }
    }
}

// ---------------------------------------------------------------------------
// Units
// ---------------------------------------------------------------------------

/// Whether a unit is there on an operating system, by the list of those that it
/// is restricted to.
pub open spec fn listed_on(name: Seq<char>, v: Option<Toml>, os: Seq<char>) -> Result<
    bool,
    Seq<char>,
> {
    match v {
        None => Ok(true),
        Some(Toml::Array(a)) => if forall|i: int|
            0 <= i < a.len() ==> (#[trigger] a[i]) is Text && is_system(a[i]->Text_0) {
            Ok(a.contains(Toml::Text(os)))
        } else {
            Err(bad_platforms(name))
        },
        Some(_) => Err(bad_platforms(name)),
    }
}

/// The message for a list of operating systems that cannot be used.
pub open spec fn bad_platforms(name: Seq<char>) -> Seq<char> {
    psyfile::unit_error(name, "': 'platforms' must list 'linux', 'macos' or 'windows'"@)
}

/// The first key of a table that names no operating system.
pub open spec fn first_unknown_system(t: Seq<(Seq<char>, Toml)>) -> Option<Seq<char>>
    decreases t.len(),
{
    if t.len() == 0 {
        None
    } else if is_system(t[0].0) {
        first_unknown_system(t.skip(1))
    } else {
        Some(t[0].0)
    }
}

/// The first key of a table that cannot be set for one operating system alone.
pub open spec fn first_fixed_field(t: Seq<(Seq<char>, Toml)>) -> Option<Seq<char>>
    decreases t.len(),
{
    if t.len() == 0 {
        None
    } else if can_override(t[0].0) {
        first_fixed_field(t.skip(1))
    } else {
        Some(t[0].0)
    }
}

/// What a unit says for one operating system alone.
pub open spec fn overrides_on(name: Seq<char>, v: Option<Toml>, os: Seq<char>) -> Result<
    Seq<(Seq<char>, Toml)>,
    Seq<char>,
> {
    match v {
        None => Ok(Seq::empty()),
        Some(Toml::Table(p)) => match first_unknown_system(p) {
            Some(k) => Err(psyfile::unit_error_on(name, "': unknown platform '"@, k, "'"@)),
            None => match toml_value::field(p, os) {
                None => Ok(Seq::empty()),
                Some(Toml::Table(o)) => match first_fixed_field(o) {
                    Some(k) => Err(
                        psyfile::unit_error_on(name, "': a platform cannot set '"@, k, "'"@),
                    ),
                    None => Ok(o),
                },
                Some(_) => Err(psyfile::unit_error(name, "': a platform must be a table"@)),
            },
        },
        Some(_) => Err(psyfile::unit_error(name, "': 'platform' must be a table"@)),
    }
}

/// A unit as it is on an operating system, `None` where it is not there at all.
/// Where no operating system is given, what is said of them is left out.
pub open spec fn unit_on(name: Seq<char>, v: Toml, os: Option<Seq<char>>) -> Result<
    Option<Toml>,
    Seq<char>,
> {
    match v {
        Toml::Table(t) => {
            let plain = without(t, "platforms"@);
            let bare = without(plain, "platform"@);
            match os {
                None => Ok(Some(Toml::Table(bare))),
                Some(s) => match listed_on(name, toml_value::field(t, "platforms"@), s) {
                    Err(e) => Err(e),
                    Ok(false) => Ok(None),
                    Ok(true) => match overrides_on(
                        name,
                        toml_value::field(plain, "platform"@),
                        s,
                    ) {
                        Err(e) => Err(e),
                        Ok(o) => Ok(Some(Toml::Table(merged(bare, o)))),
                    },
                },
            }
        },
        _ => Ok(Some(v)),
    }
}

/// The units of a document as they are on an operating system.
pub open spec fn units_on(t: Seq<(Seq<char>, Toml)>, os: Option<Seq<char>>) -> Result<
    Seq<(Seq<char>, Toml)>,
    Seq<char>,
>
    decreases t.len(),
{
    if t.len() == 0 {
        Ok(Seq::empty())
    } else {
        match unit_on(t[0].0, t[0].1, os) {
            Err(e) => Err(e),
            Ok(u) => match units_on(t.skip(1), os) {
                Err(e) => Err(e),
                Ok(rest) => Ok(
                    match u {
                        Some(v) => seq![(t[0].0, v)] + rest,
                        None => rest,
                    },
                ),
            },
        }
    }
}

/// A document as it is on an operating system.
pub open spec fn document_on(v: Toml, os: Option<Seq<char>>) -> Result<Toml, Seq<char>> {
    match v {
        Toml::Table(t) => match units_on(t, os) {
            Ok(u) => Ok(Toml::Table(u)),
            Err(e) => Err(e),
        },
        _ => Ok(v),
    }
}

fn bad_platforms_text(name: &str) -> (r: String)
    ensures
        r@ == bad_platforms(name@),
{
    psyfile::unit_err(name, "': 'platforms' must list 'linux', 'macos' or 'windows'")
}

fn check_listed(name: &str, v: &Option<TomlValue>, os: &str) -> (r: Result<bool, String>)
    ensures
        ({
            let m = match v {
                Some(x) => Some(toml_value::model(*x)),
                None => None,
            };
            match r {
                Ok(b) => listed_on(name@, m, os@) == Ok::<bool, Seq<char>>(b),
                Err(e) => listed_on(name@, m, os@) == Err::<bool, Seq<char>>(e@),
            }
        }),
{
    let x = match v {
        None => {
            return Ok(true);
        },
        Some(x) => x,
    };
    proof {
        toml_value::lemma_table(*x);
    }
    match x {
        TomlValue::Array(a) => {
            let ghost all = toml_value::model(*x)->Array_0;
            let mut found = false;
            let mut i: usize = 0;
            while i < a.len()
                invariant
                    i <= a.len(),
                    *v == Some(*x),
                    *x == TomlValue::Array(*a),
                    toml_value::model(*x) == Toml::Array(all),
                    all == Seq::new(a@.len(), |j: int| toml_value::model(a@[j])),
                    forall|j: int|
                        0 <= j < i ==> (#[trigger] all[j]) is Text && is_system(all[j]->Text_0),
                    found == exists|j: int|
                        0 <= j < i && #[trigger] all[j] == Toml::Text(os@),
                decreases a.len() - i,
            {
                proof {
                    assert(all[i as int] == toml_value::model(a@[i as int]));
                }
                match &a[i] {
                    TomlValue::Text(s) => {
                        if !system(s.as_str()) {
                            return Err(bad_platforms_text(name));
                        }
                        if text::same(s.as_str(), os) {
                            found = true;
                        }
                    },
                    _ => {
                        return Err(bad_platforms_text(name));
                    },
                }
                i += 1;
            }
            Ok(found)
        },
        _ => Err(bad_platforms_text(name)),
    }
}

fn find_unknown_system(t: &Vec<(String, TomlValue)>) -> (r: Option<String>)
    ensures
        text::opt_text(r) == first_unknown_system(toml_value::entries(t@)),
{
    let ghost all = toml_value::entries(t@);
    let mut i: usize = 0;
    proof {
        assert(all.skip(0) =~= all);
    }
    while i < t.len()
        invariant
            i <= t.len(),
            all == toml_value::entries(t@),
            first_unknown_system(all) == first_unknown_system(all.skip(i as int)),
        decreases t.len() - i,
    {
        proof {
            assert(all.skip(i as int)[0] == all[i as int]);
            assert(all.skip(i as int).skip(1) =~= all.skip(i + 1));
        }
        if !system(t[i].0.as_str()) {
            return Some(text::copy(t[i].0.as_str()));
        }
        i += 1;
    }
    None
}

fn find_fixed_field(t: &Vec<(String, TomlValue)>) -> (r: Option<String>)
    ensures
        text::opt_text(r) == first_fixed_field(toml_value::entries(t@)),
{
    let ghost all = toml_value::entries(t@);
    let mut i: usize = 0;
    proof {
        assert(all.skip(0) =~= all);
    }
    while i < t.len()
        invariant
            i <= t.len(),
            all == toml_value::entries(t@),
            first_fixed_field(all) == first_fixed_field(all.skip(i as int)),
        decreases t.len() - i,
    {
        proof {
            assert(all.skip(i as int)[0] == all[i as int]);
            assert(all.skip(i as int).skip(1) =~= all.skip(i + 1));
        }
        if !overridable(t[i].0.as_str()) {
            return Some(text::copy(t[i].0.as_str()));
        }
        i += 1;
    }
    None
}

fn take_overrides(name: &str, v: Option<TomlValue>, os: &str) -> (r: Result<
    Vec<(String, TomlValue)>,
    String,
>)
    ensures
        ({
            let m = match v {
                Some(x) => Some(toml_value::model(x)),
                None => None,
            };
            match r {
                Ok(o) => overrides_on(name@, m, os@) == Ok::<Seq<(Seq<char>, Toml)>, Seq<char>>(
                    toml_value::entries(o@),
                ),
                Err(e) => overrides_on(name@, m, os@) == Err::<
                    Seq<(Seq<char>, Toml)>,
                    Seq<char>,
                >(e@),
            }
        }),
{
    let none: Vec<(String, TomlValue)> = Vec::new();
    proof {
        assert(toml_value::entries(none@) =~= Seq::<(Seq<char>, Toml)>::empty());
    }
    let x = match v {
        None => {
            return Ok(none);
        },
        Some(x) => x,
    };
    proof {
        toml_value::lemma_table(x);
    }
    match x {
        TomlValue::Table(p) => {
            let mut p = p;
            match find_unknown_system(&p) {
                Some(k) => {
                    return Err(
                        psyfile::unit_err_on(name, "': unknown platform '", k.as_str(), "'"),
                    );
                },
                None => {},
            }
            match take_field(&mut p, os) {
                None => Ok(none),
                Some(y) => {
                    proof {
                        toml_value::lemma_table(y);
                    }
                    match y {
                        TomlValue::Table(o) => match find_fixed_field(&o) {
                            Some(k) => Err(
                                psyfile::unit_err_on(
                                    name,
                                    "': a platform cannot set '",
                                    k.as_str(),
                                    "'",
                                ),
                            ),
                            None => Ok(o),
                        },
                        _ => Err(psyfile::unit_err(name, "': a platform must be a table")),
                    }
                },
            }
        },
        _ => Err(psyfile::unit_err(name, "': 'platform' must be a table")),
    }
}

fn resolve_unit(name: &str, v: TomlValue, os: &Option<String>) -> (r: Result<
    Option<TomlValue>,
    String,
>)
    ensures
        ({
            let goal = unit_on(name@, toml_value::model(v), text::opt_text(*os));
            match r {
                Ok(Some(u)) => goal == Ok::<Option<Toml>, Seq<char>>(
                    Some(toml_value::model(u)),
                ),
                Ok(None) => goal == Ok::<Option<Toml>, Seq<char>>(None),
                Err(e) => goal == Err::<Option<Toml>, Seq<char>>(e@),
            }
        }),
{
    proof {
        toml_value::lemma_table(v);
    }
    match v {
        TomlValue::Table(t) => {
            let mut t = t;
            let listed = take_field(&mut t, "platforms");
            let own = take_field(&mut t, "platform");
            match os {
                None => {},
                Some(s) => {
                    match check_listed(name, &listed, s.as_str()) {
                        Ok(true) => {},
                        Ok(false) => {
                            return Ok(None);
                        },
                        Err(e) => {
                            return Err(e);
                        },
                    }
                    match take_overrides(name, own, s.as_str()) {
                        Ok(o) => merge(&mut t, o),
                        Err(e) => {
                            return Err(e);
                        },
                    }
                },
            }
            let u = TomlValue::Table(t);
            proof {
                toml_value::lemma_table(u);
            }
            Ok(Some(u))
        },
        _ => Ok(Some(v)),
    }
}

/// Resolves a document for an operating system: units that are not there are left
/// out, and what is said for it alone takes the place of what is said for all.
pub fn resolve(v: TomlValue, os: &Option<String>) -> (r: Result<TomlValue, String>)
    ensures
        match r {
            Ok(d) => document_on(toml_value::model(v), text::opt_text(*os)) == Ok::<
                Toml,
                Seq<char>,
            >(toml_value::model(d)),
            Err(e) => document_on(toml_value::model(v), text::opt_text(*os)) == Err::<
                Toml,
                Seq<char>,
            >(e@),
        },
{
    proof {
        toml_value::lemma_table(v);
    }
    match v {
        TomlValue::Table(t) => {
            let mut rest = t;
            let ghost o = text::opt_text(*os);
            let ghost all = toml_value::entries(t@);
            let mut out: Vec<(String, TomlValue)> = Vec::new();
            proof {
                assert(toml_value::entries(out@) =~= Seq::<(Seq<char>, Toml)>::empty());
                match units_on(all, o) {
                    Ok(u) => assert(toml_value::entries(out@) + u =~= u),
                    Err(_) => {},
                }
            }
            while rest.len() > 0
                invariant
                    o == text::opt_text(*os),
                    toml_value::model(v) == Toml::Table(all),
                    match units_on(toml_value::entries(rest@), o) {
                        Ok(u) => units_on(all, o) == Ok::<Seq<(Seq<char>, Toml)>, Seq<char>>(
                            toml_value::entries(out@) + u,
                        ),
                        Err(e) => units_on(all, o) == Err::<
                            Seq<(Seq<char>, Toml)>,
                            Seq<char>,
                        >(e),
                    },
                decreases rest.len(),
            {
                let ghost left = toml_value::entries(rest@);
                let ghost before = toml_value::entries(out@);
                let (name, unit) = rest.remove(0);
                proof {
                    assert(left[0] == (name@, toml_value::model(unit)));
                    assert(toml_value::entries(rest@) =~= left.skip(1));
                }
                match resolve_unit(name.as_str(), unit, os) {
                    Ok(Some(u)) => {
                        let ghost e = (name@, toml_value::model(u));
                        push_field(&mut out, name, u);
                        proof {
                            match units_on(left.skip(1), o) {
                                Ok(x) => assert(before + (seq![e] + x) =~= toml_value::entries(
                                    out@,
                                ) + x),
                                Err(_) => {},
                            }
                        }
                    },
                    Ok(None) => {},
                    Err(e) => {
                        return Err(e);
                    },
                }
            }
            proof {
                assert(toml_value::entries(rest@) =~= Seq::<(Seq<char>, Toml)>::empty());
                assert(toml_value::entries(out@) + Seq::<(Seq<char>, Toml)>::empty()
                    =~= toml_value::entries(out@));
            }
            let d = TomlValue::Table(out);
            proof {
                toml_value::lemma_table(d);
            }
            Ok(d)
        },
        _ => Ok(v),
    }
}

// ---------------------------------------------------------------------------
// Laws
// ---------------------------------------------------------------------------

/// Whether no key stands twice in a table.
pub open spec fn distinct(t: Seq<(Seq<char>, Toml)>) -> bool {
    forall|i: int, j: int| 0 <= i < j < t.len() ==> (#[trigger] t[i]).0 != (#[trigger] t[j]).0
}

proof fn lemma_field_push(t: Seq<(Seq<char>, Toml)>, e: (Seq<char>, Toml), key: Seq<char>)
    ensures
        toml_value::field(t.push(e), key) == (match toml_value::field(t, key) {
            Some(v) => Some(v),
            None => if e.0 == key {
                Some(e.1)
            } else {
                None
            },
        }),
    decreases t.len(),
{
    if t.len() > 0 {
        assert(t.push(e)[0] == t[0]);
        assert(t.push(e).skip(1) =~= t.skip(1).push(e));
        lemma_field_push(t.skip(1), e, key);
    } else {
        let none = t.push(e).skip(1);
        assert(none.len() == 0);
        assert(toml_value::field(none, key) is None);
        assert(t.push(e)[0] == e);
    }
}

proof fn lemma_no_field(t: Seq<(Seq<char>, Toml)>, key: Seq<char>)
    ensures
        toml_value::field(t, key) is None <==> forall|i: int|
            0 <= i < t.len() ==> (#[trigger] t[i]).0 != key,
    decreases t.len(),
{
    if t.len() > 0 {
        lemma_no_field(t.skip(1), key);
        if toml_value::field(t, key) is None {
            assert forall|i: int| 0 <= i < t.len() implies (#[trigger] t[i]).0 != key by {
                if i > 0 {
                    assert(t.skip(1)[i - 1] == t[i]);
                }
            }
        }
        if forall|i: int| 0 <= i < t.len() ==> (#[trigger] t[i]).0 != key {
            assert(t[0].0 != key);
            assert forall|i: int| 0 <= i < t.skip(1).len() implies (#[trigger] t.skip(1)[i]).0
                != key by {
                assert(t.skip(1)[i] == t[i + 1]);
            }
        }
    }
}

proof fn lemma_tail_distinct(t: Seq<(Seq<char>, Toml)>)
    requires
        distinct(t),
        t.len() > 0,
    ensures
        distinct(t.skip(1)),
        toml_value::field(t.skip(1), t[0].0) is None,
{
    assert forall|i: int, j: int| 0 <= i < j < t.skip(1).len() implies (#[trigger] t.skip(1)[i]).0
        != (#[trigger] t.skip(1)[j]).0 by {
        assert(t[i + 1].0 != t[j + 1].0);
    }
    assert forall|i: int| 0 <= i < t.skip(1).len() implies (#[trigger] t.skip(1)[i]).0
        != t[0].0 by {
        assert(t[0].0 != t[i + 1].0);
    }
    lemma_no_field(t.skip(1), t[0].0);
}

proof fn lemma_without_field(t: Seq<(Seq<char>, Toml)>, k: Seq<char>, key: Seq<char>)
    requires
        distinct(t),
    ensures
        toml_value::field(without(t, k), key) == if key == k {
            None
        } else {
            toml_value::field(t, key)
        },
    decreases t.len(),
{
    if t.len() > 0 {
        lemma_tail_distinct(t);
        lemma_without_field(t.skip(1), k, key);
        let rest = without(t.skip(1), k);
        let all = seq![t[0]] + rest;
        assert(all[0] == t[0]);
        assert(all.skip(1) =~= rest);
    }
}

proof fn lemma_without_distinct(t: Seq<(Seq<char>, Toml)>, k: Seq<char>)
    requires
        distinct(t),
    ensures
        distinct(without(t, k)),
    decreases t.len(),
{
    if t.len() > 0 {
        lemma_tail_distinct(t);
        lemma_without_distinct(t.skip(1), k);
        let rest = without(t.skip(1), k);
        let all = seq![t[0]] + rest;
        if t[0].0 != k {
            lemma_without_field(t.skip(1), k, t[0].0);
            lemma_no_field(rest, t[0].0);
            assert forall|i: int, j: int| 0 <= i < j < all.len() implies (#[trigger] all[i]).0 != (
            #[trigger] all[j]).0 by {
                assert(all[j] == rest[j - 1]);
                if i > 0 {
                    assert(all[i] == rest[i - 1]);
                }
            }
        }
    }
}

proof fn lemma_replaced(t: Seq<(Seq<char>, Toml)>, k: Seq<char>, v: Toml, key: Seq<char>)
    requires
        distinct(t),
    ensures
        distinct(replaced(t, k, v)),
        toml_value::field(replaced(t, k, v), key) == if key == k {
            Some(v)
        } else {
            toml_value::field(t, key)
        },
{
    let rest = without(t, k);
    lemma_without_field(t, k, key);
    lemma_without_field(t, k, k);
    lemma_without_distinct(t, k);
    lemma_field_push(rest, (k, v), key);
    lemma_no_field(rest, k);
    assert forall|i: int, j: int| 0 <= i < j < replaced(t, k, v).len() implies (
    #[trigger] replaced(t, k, v)[i]).0 != (#[trigger] replaced(t, k, v)[j]).0 by {
        if j < rest.len() {
            assert(rest[i].0 != rest[j].0);
        }
    }
}

/// Where the environment of an operating system is merged into that of a unit, it
/// wins where both set a variable, and every other variable stays.
pub proof fn lemma_env_merged(
    t: Seq<(Seq<char>, Toml)>,
    over: Seq<(Seq<char>, Toml)>,
    key: Seq<char>,
)
    requires
        distinct(t),
        distinct(over),
    ensures
        toml_value::field(overlaid(t, over), key) == (match toml_value::field(over, key) {
            Some(v) => Some(v),
            None => toml_value::field(t, key),
        }),
    decreases over.len(),
{
    if over.len() > 0 {
        lemma_replaced(t, over[0].0, over[0].1, key);
        lemma_tail_distinct(over);
        lemma_env_merged(replaced(t, over[0].0, over[0].1), over.skip(1), key);
    }
}

/// What a unit says on an operating system: a field that is set for it alone has that
/// value, every other field stays, and the environments are merged.
pub proof fn lemma_fields_on(
    t: Seq<(Seq<char>, Toml)>,
    over: Seq<(Seq<char>, Toml)>,
    key: Seq<char>,
)
    requires
        distinct(t),
        distinct(over),
    ensures
        toml_value::field(merged(t, over), key) == (match toml_value::field(over, key) {
            Some(v) => Some(
                if key == "env"@ {
                    merged_env(toml_value::field(t, key), v)
                } else {
                    v
                },
            ),
            None => toml_value::field(t, key),
        }),
    decreases over.len(),
{
    if over.len() > 0 {
        let k = over[0].0;
        let v = if k == "env"@ {
            merged_env(toml_value::field(t, "env"@), over[0].1)
        } else {
            over[0].1
        };
        lemma_replaced(t, k, v, key);
        lemma_tail_distinct(over);
        lemma_fields_on(replaced(t, k, v), over.skip(1), key);
    }
}

/// Whether an entry of a document is a unit on an operating system.
pub open spec fn present(e: (Seq<char>, Toml), os: Seq<char>) -> bool {
    match e.1 {
        Toml::Table(u) => listed_on(e.0, toml_value::field(u, "platforms"@), os) == Ok::<
            bool,
            Seq<char>,
        >(true),
        _ => true,
    }
}

/// The units of a document on an operating system are those that are not restricted to
/// others.
pub proof fn lemma_units_on(t: Seq<(Seq<char>, Toml)>, os: Seq<char>, name: Seq<char>)
    requires
        units_on(t, Some(os)) is Ok,
    ensures
        toml_value::field(units_on(t, Some(os))->Ok_0, name) is Some <==> exists|i: int|
            0 <= i < t.len() && (#[trigger] t[i]).0 == name && present(t[i], os),
    decreases t.len(),
{
    if t.len() > 0 {
        let rest = t.skip(1);
        lemma_units_on(rest, os, name);
        let all = units_on(t, Some(os))->Ok_0;
        let more = units_on(rest, Some(os))->Ok_0;
        if unit_on(t[0].0, t[0].1, Some(os))->Ok_0 is Some {
            assert(all[0].0 == t[0].0);
            assert(all.skip(1) =~= more);
        }
        if exists|i: int| 0 <= i < t.len() && (#[trigger] t[i]).0 == name && present(t[i], os) {
            let i = choose|i: int|
                0 <= i < t.len() && (#[trigger] t[i]).0 == name && present(t[i], os);
            if i > 0 {
                assert(rest[i - 1] == t[i]);
            }
        }
        if exists|i: int|
            0 <= i < rest.len() && (#[trigger] rest[i]).0 == name && present(rest[i], os) {
            let i = choose|i: int|
                0 <= i < rest.len() && (#[trigger] rest[i]).0 == name && present(rest[i], os);
            assert(t[i + 1] == rest[i]);
        }
    }
}

} // verus!
