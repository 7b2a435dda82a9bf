//! JSON: what a parsed text holds, as plain data.
use crate::text;
use vstd::prelude::*;

verus! {

/// What a JSON value holds. A number is a whole number of 64 bits or, where it
/// is none, its text.
pub ghost enum Js {
    Null,
    Bool(bool),
    Unsigned(u64),
    Negative(i64),
    Real(Seq<char>),
    Text(Seq<char>),
    Array(Seq<Js>),
    Object(Map<Seq<char>, Js>),
}

/// A JSON value as plain data. Where a key occurs more than once in an object,
/// the last one counts.
#[derive(Debug)]
pub enum Json {
    Null,
    Bool(bool),
    Unsigned(u64),
    Negative(i64),
    Real(String),
    Text(String),
    Array(Vec<Json>),
    Object(Vec<(String, Json)>),
}

/// The object with the given entries.
pub open spec fn entries_map(s: Seq<(Seq<char>, Js)>) -> Map<Seq<char>, Js>
    decreases s.len(),
{
    if s.len() == 0 {
        Map::empty()
    } else {
        entries_map(s.drop_last()).insert(s.last().0, s.last().1)
    }
}

/// The model of a value.
pub open spec fn model(v: Json) -> Js
    decreases v,
{
    match v {
        Json::Null => Js::Null,
        Json::Bool(b) => Js::Bool(b),
        Json::Unsigned(n) => Js::Unsigned(n),
        Json::Negative(n) => Js::Negative(n),
        Json::Real(s) => Js::Real(s@),
        Json::Text(s) => Js::Text(s@),
        Json::Array(a) => Js::Array(
            Seq::new(
                a@.len(),
                |i: int|
                    if 0 <= i < a@.len() {
                        model(a@[i])
                    } else {
                        Js::Null
                    },
            ),
        ),
        Json::Object(t) => Js::Object(entries_map(member_models(t@))),
    }
}

/// The models of the entries of an object.
pub open spec fn member_models(t: Seq<(String, Json)>) -> Seq<(Seq<char>, Js)>
    decreases t,
{
    Seq::new(
        t.len(),
        |i: int|
            if 0 <= i < t.len() {
                (t[i].0@, model(t[i].1))
            } else {
                (Seq::<char>::empty(), Js::Null)
            },
    )
}

/// The models of some values.
pub open spec fn models(a: Seq<Json>) -> Seq<Js> {
    Seq::new(a.len(), |i: int| model(a[i]))
}

/// The models of some entries.
pub open spec fn entry_models(t: Seq<(String, Json)>) -> Seq<(Seq<char>, Js)> {
    Seq::new(t.len(), |i: int| (t[i].0@, model(t[i].1)))
}

/// The model of a list or an object is that of its members.
pub proof fn lemma_members(v: Json)
    ensures
        v matches Json::Array(a) ==> model(v) == Js::Array(models(a@)),
        v matches Json::Object(t) ==> model(v) == Js::Object(entries_map(entry_models(t@))),
{
    match v {
        Json::Array(a) => {
            assert(model(v)->Array_0 =~= models(a@));
        },
        Json::Object(t) => {
            assert(member_models(t@) =~= entry_models(t@));
        },
        _ => {},
    }
}

/// The keys of some entries.
pub open spec fn keys(s: Seq<(Seq<char>, Js)>) -> Seq<Seq<char>> {
    s.map_values(|e: (Seq<char>, Js)| e.0)
}

/// In entries without repeated keys, every entry is in the object.
pub proof fn lemma_entry(s: Seq<(Seq<char>, Js)>, i: int)
    requires
        keys(s).no_duplicates(),
        0 <= i < s.len(),
    ensures
        entries_map(s).dom().contains(s[i].0),
        entries_map(s)[s[i].0] == s[i].1,
    decreases s.len(),
{
    if i < s.len() - 1 {
        let rest = s.drop_last();
        assert(keys(rest) =~= keys(s).drop_last());
        lemma_entry(rest, i);
        assert(keys(s)[i] == s[i].0);
        assert(keys(s)[s.len() - 1] == s.last().0);
    }
}

/// An object has the keys of its entries.
pub proof fn lemma_has_key(s: Seq<(Seq<char>, Js)>, k: Seq<char>)
    ensures
        entries_map(s).dom().contains(k) <==> exists|i: int|
            0 <= i < s.len() && (#[trigger] s[i]).0 == k,
    decreases s.len(),
{
    if s.len() > 0 {
        let rest = s.drop_last();
        lemma_has_key(rest, k);
        if entries_map(s).dom().contains(k) {
            if s.last().0 == k {
                assert(s[s.len() - 1].0 == k);
            } else {
                let i = choose|i: int| 0 <= i < rest.len() && (#[trigger] rest[i]).0 == k;
                assert(s[i] == rest[i]);
            }
        }
        if exists|i: int| 0 <= i < s.len() && (#[trigger] s[i]).0 == k {
            let i = choose|i: int| 0 <= i < s.len() && (#[trigger] s[i]).0 == k;
            if i < rest.len() {
                assert(rest[i] == s[i]);
            }
        }
    }
}

proof fn lemma_entries_finite(s: Seq<(Seq<char>, Js)>)
    ensures
        entries_map(s).dom().finite(),
    decreases s.len(),
{
    if s.len() > 0 {
        lemma_entries_finite(s.drop_last());
    }
}

// ---------------------------------------------------------------------------
// Reading and writing text
// ---------------------------------------------------------------------------

/// The type `serde_json::Value`.
#[verifier::external_type_specification]
#[verifier::external_body]
pub struct ExJsonValue(serde_json::Value);

/// What a `serde_json::Value` holds.
pub uninterp spec fn held(v: serde_json::Value) -> Js;

/// The value that `serde_json::from_str` reads in a text, or its error message,
/// by name.
pub uninterp spec fn document(s: Seq<char>) -> Result<Js, Seq<char>>;

/// Calls `serde_json::from_str`: what comes back depends on the text alone.
#[verifier::external_body]
fn parse_document(s: &str) -> (r: Result<serde_json::Value, String>)
    ensures
        match r {
            Ok(v) => document(s@) == Ok::<Js, Seq<char>>(held(v)),
            Err(e) => document(s@) == Err::<Js, Seq<char>>(e@),
        },
{
    match serde_json::from_str::<serde_json::Value>(s) {
        Ok(v) => Ok(v),
        Err(e) => Err(e.to_string()),
    }
}

/// One level of a `serde_json::Value`.
pub enum Layer {
    Null,
    Bool(bool),
    Unsigned(u64),
    Negative(i64),
    Real(String),
    Text(String),
    Array(Vec<serde_json::Value>),
    Object(Vec<(String, serde_json::Value)>),
}

/// The entries of an object, one level deep.
pub open spec fn layer_entries(t: Seq<(String, serde_json::Value)>) -> Seq<(Seq<char>, Js)> {
    Seq::new(t.len(), |i: int| (t[i].0@, held(t[i].1)))
}

/// What one level of a value holds.
pub open spec fn layer_held(l: Layer) -> Js {
    match l {
        Layer::Null => Js::Null,
        Layer::Bool(b) => Js::Bool(b),
        Layer::Unsigned(n) => Js::Unsigned(n),
        Layer::Negative(n) => Js::Negative(n),
        Layer::Real(s) => Js::Real(s@),
        Layer::Text(s) => Js::Text(s@),
        Layer::Array(a) => Js::Array(Seq::new(a@.len(), |i: int| held(a@[i]))),
        Layer::Object(t) => Js::Object(entries_map(layer_entries(t@))),
    }
}

/// Takes the outermost level off a `serde_json::Value`: its variant and what the
/// variant carries. A number is the whole number that `serde_json::Number`'s
/// `as_u64` or `as_i64` gives, or else its text. The keys of an object differ.
#[verifier::external_body]
fn open_layer(v: serde_json::Value) -> (r: Layer)
    ensures
        layer_held(r) == held(v),
        r matches Layer::Object(t) ==> keys(layer_entries(t@)).no_duplicates(),
{
    match v {
        serde_json::Value::Null => Layer::Null,
        serde_json::Value::Bool(b) => Layer::Bool(b),
        serde_json::Value::Number(n) => match (n.as_u64(), n.as_i64()) {
            (Some(u), _) => Layer::Unsigned(u),
            (None, Some(i)) => Layer::Negative(i),
            (None, None) => Layer::Real(n.to_string()),
        },
        serde_json::Value::String(s) => Layer::Text(s),
        serde_json::Value::Array(a) => Layer::Array(a),
        serde_json::Value::Object(t) => Layer::Object(t.into_iter().collect()),
    }
}

/// The plain form of a `serde_json::Value`.
fn plain(v: serde_json::Value) -> (r: Json)
    ensures
        model(r) == held(v),
    decreases held(v),
{
    let ghost whole = held(v);
    match open_layer(v) {
        Layer::Null => Json::Null,
        Layer::Bool(b) => Json::Bool(b),
        Layer::Unsigned(n) => Json::Unsigned(n),
        Layer::Negative(n) => Json::Negative(n),
        Layer::Real(s) => Json::Real(s),
        Layer::Text(s) => Json::Text(s),
        Layer::Array(a) => {
            let mut rest = a;
            let ghost all = rest@;
            let ghost items = Seq::new(all.len(), |i: int| held(all[i]));
            let mut out: Vec<Json> = Vec::new();
            while rest.len() > 0
                invariant
                    items == Seq::new(all.len(), |i: int| held(all[i])),
                    whole == Js::Array(items),
                    whole == held(v),
                    out@.len() + rest@.len() == all.len(),
                    rest@ == all.skip(out@.len() as int),
                    forall|i: int| 0 <= i < out@.len() ==> model(#[trigger] out@[i]) == items[i],
                decreases rest.len(),
            {
                let ghost n = out@.len() as int;
                let x = rest.remove(0);
                proof {
                    assert(x == all[n]);
                    assert(items[n] == held(x));
                    assert(decreases_to!(whole => whole->Array_0));
                    assert(decreases_to!(whole->Array_0 => whole->Array_0[n]));
                    assert(rest@ =~= all.skip(n + 1));
                }
                out.push(plain(x));
            }
            let r = Json::Array(out);
            proof {
                lemma_members(r);
                assert(models(out@) =~= items);
            }
            r
        },
        Layer::Object(t) => {
            let mut rest = t;
            let ghost all = rest@;
            let ghost items = layer_entries(all);
            let mut out: Vec<(String, Json)> = Vec::new();
            while rest.len() > 0
                invariant
                    items == layer_entries(all),
                    keys(items).no_duplicates(),
                    whole == Js::Object(entries_map(items)),
                    whole == held(v),
                    out@.len() + rest@.len() == all.len(),
                    rest@ == all.skip(out@.len() as int),
                    forall|i: int|
                        0 <= i < out@.len() ==> (#[trigger] out@[i]).0@ == items[i].0 && model(
                            out@[i].1,
                        ) == items[i].1,
                decreases rest.len(),
            {
                let ghost n = out@.len() as int;
                let (k, x) = rest.remove(0);
                proof {
                    assert((k, x) == all[n]);
                    assert(items[n] == (k@, held(x)));
                    lemma_entry(items, n);
                    lemma_entries_finite(items);
                    assert(decreases_to!(whole => whole->Object_0));
                    assert(decreases_to!(whole->Object_0 => whole->Object_0[k@]));
                    assert(rest@ =~= all.skip(n + 1));
                }
                out.push((k, plain(x)));
            }
            let r = Json::Object(out);
            proof {
                lemma_members(r);
                assert(entry_models(out@) =~= items);
            }
            r
        },
    }
}

/// Reads a JSON text, or says what is wrong with it.
pub fn read(s: &str) -> (r: Result<Json, String>)
    ensures
        match r {
            Ok(v) => document(s@) == Ok::<Js, Seq<char>>(model(v)),
            Err(e) => document(s@) == Err::<Js, Seq<char>>(e@),
        },
{
    match parse_document(s) {
        Ok(v) => Ok(plain(v)),
        Err(e) => Err(e),
    }
}

/// The number that `serde_json::Number`'s `from_str` reads in a text, null
/// where it reads none, by name.
pub uninterp spec fn number(s: Seq<char>) -> Js;

/// Calls `from_str` of `serde_json::Number`: what comes back depends on the text
/// alone.
#[verifier::external_body]
fn build_number(s: &str) -> (r: serde_json::Value)
    ensures
        held(r) == number(s@),
{
    match s.parse::<serde_json::Number>() {
        Ok(n) => serde_json::Value::Number(n),
        Err(_) => serde_json::Value::Null,
    }
}

/// Makes a `serde_json::Value` of one level: the variant and what it carries. An
/// object is collected from its entries, so the last of equal keys counts.
#[verifier::external_body]
fn close_layer(l: Layer) -> (r: serde_json::Value)
    requires
        l !is Real,
        l matches Layer::Negative(n) ==> n < 0,
    ensures
        held(r) == layer_held(l),
{
    match l {
        Layer::Null => serde_json::Value::Null,
        Layer::Bool(b) => serde_json::Value::Bool(b),
        Layer::Unsigned(n) => serde_json::Value::from(n),
        Layer::Negative(n) => serde_json::Value::from(n),
        Layer::Real(s) => serde_json::Value::String(s),
        Layer::Text(s) => serde_json::Value::String(s),
        Layer::Array(a) => serde_json::Value::Array(a),
        Layer::Object(t) => serde_json::Value::Object(t.into_iter().collect()),
    }
}

/// Whether a value is read as it was written: it is nested at most as deep as
/// given, and its numbers are whole. A number with a fraction may be read as its
/// neighbour.
pub open spec fn readable(v: Js, levels: nat) -> bool
    decreases levels,
{
    match v {
        Js::Real(_) => false,
        Js::Array(a) => levels > 0 && forall|i: int|
            0 <= i < a.len() ==> readable(#[trigger] a[i], (levels - 1) as nat),
        Js::Object(m) => levels > 0 && forall|k: Seq<char>|
            m.dom().contains(k) ==> readable(#[trigger] m[k], (levels - 1) as nat),
        _ => true,
    }
}

/// How deep a text may be nested that `serde_json::from_str` reads.
pub const READ_DEPTH: u8 = 127;

/// Whether a text is read as a value, where the value is read as it was written.
pub open spec fn reads_as(s: Seq<char>, v: Js) -> bool {
    readable(v, READ_DEPTH as nat) ==> document(s) == Ok::<Js, Seq<char>>(v)
}

/// The compact text that `serde_json::Value` is written as, by name.
pub uninterp spec fn compact(v: Js) -> Seq<char>;

/// Calls `to_string` of a `serde_json::Value`: the text depends on what the
/// value holds alone, and `serde_json::from_str` reads the same value in it where
/// its numbers are whole and it is not nested too deep.
#[verifier::external_body]
fn print_compact(v: &serde_json::Value) -> (r: String)
    ensures
        r@ == compact(held(*v)),
        reads_as(r@, held(*v)),
{
    v.to_string()
}

/// The indented text that `serde_json::to_string_pretty` gives for a value, by
/// name.
pub uninterp spec fn pretty(v: Js) -> Seq<char>;

/// Calls `serde_json::to_string_pretty`, which does not fail on a
/// `serde_json::Value`: the text depends on what the value holds alone, and
/// `serde_json::from_str` reads the same value in it where its numbers are whole
/// and it is not nested too deep.
#[verifier::external_body]
fn print_pretty(v: &serde_json::Value) -> (r: String)
    ensures
        r@ == pretty(held(*v)),
        reads_as(r@, held(*v)),
{
    serde_json::to_string_pretty(v).unwrap_or_default()
}

/// What a value holds once it is written: the text of a number that is not
/// whole is read as a number again, and a whole number that is not negative has
/// no sign.
pub open spec fn written(v: Js) -> Js
    decreases v,
{
    match v {
        Js::Real(s) => number(s),
        Js::Negative(n) => if n < 0 {
            v
        } else {
            Js::Unsigned(n as u64)
        },
        Js::Array(a) => Js::Array(
            Seq::new(
                a.len(),
                |i: int|
                    if 0 <= i < a.len() {
                        written(a[i])
                    } else {
                        Js::Null
                    },
            ),
        ),
        Js::Object(m) => Js::Object(
            Map::new(
                |k: Seq<char>| m.dom().contains(k),
                |k: Seq<char>|
                    if m.dom().contains(k) {
                        written(m[k])
                    } else {
                        Js::Null
                    },
            ),
        ),
        _ => v,
    }
}


/// Entries with written values make the object with written values.
proof fn lemma_written_entries(s: Seq<(Seq<char>, Js)>, w: Seq<(Seq<char>, Js)>)
    requires
        s.len() == w.len(),
        forall|i: int|
            0 <= i < s.len() ==> (#[trigger] w[i]).0 == s[i].0 && w[i].1 == written(s[i].1),
    ensures
        written(Js::Object(entries_map(s))) == Js::Object(entries_map(w)),
    decreases s.len(),
{
    let a = entries_map(s);
    let b = entries_map(w);
    if s.len() > 0 {
        lemma_written_entries(s.drop_last(), w.drop_last());
        let a0 = entries_map(s.drop_last());
        let b0 = entries_map(w.drop_last());
        assert(written(Js::Object(a0))->Object_0 == b0);
        assert(w.last().0 == s.last().0);
        assert forall|k: Seq<char>| a0.dom().contains(k) implies b0[k] == written(a0[k]) by {
            assert(written(Js::Object(a0))->Object_0[k] == written(a0[k]));
        }
        assert(a0.dom() =~= b0.dom()) by {
            assert(written(Js::Object(a0))->Object_0.dom() =~= a0.dom());
        }
    }
    assert(written(Js::Object(a))->Object_0 =~= b);
}

/// The `serde_json::Value` that holds a plain value.
fn build(v: &Json) -> (r: serde_json::Value)
    ensures
        held(r) == written(model(*v)),
    decreases v,
{
    proof {
        lemma_members(*v);
    }
    match v {
        Json::Null => close_layer(Layer::Null),
        Json::Bool(b) => close_layer(Layer::Bool(*b)),
        Json::Unsigned(n) => close_layer(Layer::Unsigned(*n)),
        Json::Negative(n) => if *n < 0 {
            close_layer(Layer::Negative(*n))
        } else {
            close_layer(Layer::Unsigned(*n as u64))
        },
        Json::Real(s) => build_number(s.as_str()),
        Json::Text(s) => close_layer(Layer::Text(text::copy(s.as_str()))),
        Json::Array(a) => {
            let mut out: Vec<serde_json::Value> = Vec::new();
            let mut i: usize = 0;
            while i < a.len()
                invariant
                    i <= a.len(),
                    out@.len() == i,
                    *v == Json::Array(*a),
                    forall|j: int|
                        0 <= j < i ==> held(#[trigger] out@[j]) == written(model(a@[j])),
                decreases a.len() - i,
            {
                proof {
                    assert(decreases_to!(v => v->Array_0));
                    assert(decreases_to!(v->Array_0 => v->Array_0@));
                    assert(decreases_to!(v->Array_0@ => v->Array_0@[i as int]));
                }
                out.push(build(&a[i]));
                i += 1;
            }
            let ghost items = Seq::new(out@.len(), |i: int| held(out@[i]));
            let r = close_layer(Layer::Array(out));
            proof {
                assert(written(Js::Array(models(a@)))->Array_0 =~= items);
            }
            r
        },
        Json::Object(t) => {
            let mut out: Vec<(String, serde_json::Value)> = Vec::new();
            let mut i: usize = 0;
            while i < t.len()
                invariant
                    i <= t.len(),
                    out@.len() == i,
                    *v == Json::Object(*t),
                    forall|j: int|
                        0 <= j < i ==> (#[trigger] out@[j]).0@ == t@[j].0@ && held(out@[j].1)
                            == written(model(t@[j].1)),
                decreases t.len() - i,
            {
                proof {
                    assert(decreases_to!(v => v->Object_0));
                    assert(decreases_to!(v->Object_0 => v->Object_0@));
                    assert(decreases_to!(v->Object_0@ => v->Object_0@[i as int]));
                    assert(decreases_to!(v->Object_0@[i as int] => v->Object_0@[i as int].1));
                }
                let k = text::copy(t[i].0.as_str());
                let x = build(&t[i].1);
                out.push((k, x));
                i += 1;
            }
            let ghost items = layer_entries(out@);
            let r = close_layer(Layer::Object(out));
            proof {
                lemma_written_entries(entry_models(t@), items);
            }
            r
        },
    }
}

/// Writes a value on one line. [`read`] gives it back where its numbers are whole
/// and it is not nested too deep.
pub fn write(v: &Json) -> (r: String)
    ensures
        r@ == compact(written(model(*v))),
        reads_as(r@, written(model(*v))),
{
    let built = build(v);
    print_compact(&built)
}

/// Writes a value with indentation. [`read`] gives it back where its numbers are
/// whole and it is not nested too deep.
pub fn write_pretty(v: &Json) -> (r: String)
    ensures
        r@ == pretty(written(model(*v))),
        reads_as(r@, written(model(*v))),
{
    let built = build(v);
    print_pretty(&built)
}

// ---------------------------------------------------------------------------
// Looking into values
// ---------------------------------------------------------------------------

/// The member of an object under a key.
pub open spec fn member(v: Js, key: Seq<char>) -> Option<Js> {
    match v {
        Js::Object(m) => if m.dom().contains(key) {
            Some(m[key])
        } else {
            None
        },
        _ => None,
    }
}

/// The text under a key, where there is one.
pub open spec fn text_member(v: Js, key: Seq<char>) -> Option<Seq<char>> {
    match member(v, key) {
        Some(Js::Text(s)) => Some(s),
        _ => None,
    }
}

/// The flag under a key, where there is one.
pub open spec fn flag_member(v: Js, key: Seq<char>) -> Option<bool> {
    match member(v, key) {
        Some(Js::Bool(b)) => Some(b),
        _ => None,
    }
}

/// The whole number under a key, where there is one that is not negative.
pub open spec fn number_member(v: Js, key: Seq<char>) -> Option<u64> {
    match member(v, key) {
        Some(Js::Unsigned(n)) => Some(n),
        _ => None,
    }
}

/// The list under a key, where there is one.
pub open spec fn array_member(v: Js, key: Seq<char>) -> Option<Seq<Js>> {
    match member(v, key) {
        Some(Js::Array(a)) => Some(a),
        _ => None,
    }
}

proof fn lemma_last_entry(s: Seq<(Seq<char>, Js)>, key: Seq<char>, i: int)
    requires
        -1 <= i < s.len(),
        i >= 0 ==> s[i].0 == key,
        forall|j: int| i < j < s.len() ==> (#[trigger] s[j]).0 != key,
    ensures
        entries_map(s).dom().contains(key) <==> i >= 0,
        i >= 0 ==> entries_map(s)[key] == s[i].1,
    decreases s.len(),
{
    if s.len() > 0 && i < s.len() - 1 {
        assert(s[s.len() - 1].0 != key);
        let rest = s.drop_last();
        assert forall|j: int| i < j < rest.len() implies (#[trigger] rest[j]).0 != key by {
            assert(rest[j] == s[j]);
        }
        lemma_last_entry(rest, key, i);
    }
}

/// Looks up a key in a value.
pub fn get<'a>(v: &'a Json, key: &str) -> (r: Option<&'a Json>)
    ensures
        match r {
            Some(x) => member(model(*v), key@) == Some(model(*x)),
            None => member(model(*v), key@) is None,
        },
{
    proof {
        lemma_members(*v);
    }
    match v {
        Json::Object(t) => {
            let ghost s = entry_models(t@);
            let mut i: usize = t.len();
            while i > 0
                invariant
                    i <= t.len(),
                    s == entry_models(t@),
                    model(*v) == Js::Object(entries_map(s)),
                    forall|j: int| i <= j < s.len() ==> (#[trigger] s[j]).0 != key@,
                decreases i,
            {
                i -= 1;
                if text::same(t[i].0.as_str(), key) {
                    proof {
                        lemma_last_entry(s, key@, i as int);
                    }
                    return Some(&t[i].1);
                }
            }
            proof {
                lemma_last_entry(s, key@, -1);
            }
            None
        },
        _ => None,
    }
}

/// Looks up a text in a value.
pub fn get_text<'a>(v: &'a Json, key: &str) -> (r: Option<&'a String>)
    ensures
        match r {
            Some(s) => text_member(model(*v), key@) == Some(s@),
            None => text_member(model(*v), key@) is None,
        },
{
    match get(v, key) {
        Some(Json::Text(s)) => Some(s),
        _ => None,
    }
}

/// Looks up a flag in a value.
pub fn get_flag(v: &Json, key: &str) -> (r: Option<bool>)
    ensures
        r == flag_member(model(*v), key@),
{
    match get(v, key) {
        Some(Json::Bool(b)) => Some(*b),
        _ => None,
    }
}

/// Looks up a whole number in a value.
pub fn get_number(v: &Json, key: &str) -> (r: Option<u64>)
    ensures
        r == number_member(model(*v), key@),
{
    match get(v, key) {
        Some(Json::Unsigned(n)) => Some(*n),
        _ => None,
    }
}

/// Looks up a list in a value.
pub fn get_array<'a>(v: &'a Json, key: &str) -> (r: Option<&'a Vec<Json>>)
    ensures
        match r {
            Some(a) => array_member(model(*v), key@) == Some(models(a@)),
            None => array_member(model(*v), key@) is None,
        },
{
    match get(v, key) {
        Some(x) => {
            proof {
                lemma_members(*x);
            }
            match x {
                Json::Array(a) => Some(a),
                _ => None,
            }
        },
        None => None,
    }
}

impl Clone for Json {
    fn clone(&self) -> (r: Self)
        ensures
            model(r) == model(*self),
        decreases self,
    {
        proof {
            lemma_members(*self);
        }
        match self {
            Json::Null => Json::Null,
            Json::Bool(b) => Json::Bool(*b),
            Json::Unsigned(n) => Json::Unsigned(*n),
            Json::Negative(n) => Json::Negative(*n),
            Json::Real(s) => Json::Real(text::copy(s.as_str())),
            Json::Text(s) => Json::Text(text::copy(s.as_str())),
            Json::Array(a) => {
                let mut out: Vec<Json> = Vec::new();
                let mut i: usize = 0;
                while i < a.len()
                    invariant
                        i <= a.len(),
                        out@.len() == i,
                        *self == Json::Array(*a),
                        forall|j: int| 0 <= j < i ==> model(#[trigger] out@[j]) == model(a@[j]),
                    decreases a.len() - i,
                {
                    proof {
                        assert(decreases_to!(self => self->Array_0));
                    assert(decreases_to!(self->Array_0 => self->Array_0@));
                    assert(decreases_to!(self->Array_0@ => self->Array_0@[i as int]));
                    }
                    out.push((&a[i]).clone());
                    i += 1;
                }
                let r = Json::Array(out);
                proof {
                    lemma_members(r);
                    assert(models(out@) =~= models(a@));
                }
                r
            },
            Json::Object(t) => {
                let mut out: Vec<(String, Json)> = Vec::new();
                let mut i: usize = 0;
                while i < t.len()
                    invariant
                        i <= t.len(),
                        out@.len() == i,
                        *self == Json::Object(*t),
                        forall|j: int|
                            0 <= j < i ==> (#[trigger] out@[j]).0@ == t@[j].0@ && model(out@[j].1)
                                == model(t@[j].1),
                    decreases t.len() - i,
                {
                    proof {
                        assert(decreases_to!(self => self->Object_0));
                    assert(decreases_to!(self->Object_0 => self->Object_0@));
                    assert(decreases_to!(self->Object_0@ => self->Object_0@[i as int]));
                    assert(decreases_to!(self->Object_0@[i as int] => self->Object_0@[i as int].1));
                    }
                    let k = text::copy(t[i].0.as_str());
                    let x = (&t[i].1).clone();
                    out.push((k, x));
                    i += 1;
                }
                let r = Json::Object(out);
                proof {
                    lemma_members(r);
                    assert(entry_models(out@) =~= entry_models(t@));
                }
                r
            },
        }
    }
}

// ---------------------------------------------------------------------------
// Making values
// ---------------------------------------------------------------------------

/// An object with the given entries.
pub open spec fn object_of(s: Seq<(Seq<char>, Js)>) -> Js {
    Js::Object(entries_map(s))
}

/// Makes a text.
pub fn string(s: &str) -> (r: Json)
    ensures
        model(r) == Js::Text(s@),
{
    Json::Text(text::copy(s))
}

/// Makes an entry.
pub fn entry(key: &str, value: Json) -> (r: (String, Json))
    ensures
        r.0@ == key@,
        r.1 == value,
{
    (text::copy(key), value)
}

/// Makes an object.
pub fn object(entries: Vec<(String, Json)>) -> (r: Json)
    ensures
        model(r) == object_of(entry_models(entries@)),
{
    let r = Json::Object(entries);
    proof {
        lemma_members(r);
    }
    r
}

/// Makes a list.
pub fn array(items: Vec<Json>) -> (r: Json)
    ensures
        model(r) == Js::Array(models(items@)),
{
    let r = Json::Array(items);
    proof {
        lemma_members(r);
    }
    r
}

/// An object that is being made, entry by entry.
#[derive(Debug)]
pub struct Fields {
    pub entries: Vec<(String, Json)>,
}

impl View for Fields {
    type V = Seq<(Seq<char>, Js)>;

    open spec fn view(&self) -> Seq<(Seq<char>, Js)> {
        entry_models(self.entries@)
    }
}

impl Fields {
    /// An object without entries.
    pub fn new() -> (r: Fields)
        ensures
            r@ == Seq::<(Seq<char>, Js)>::empty(),
    {
        let r = Fields { entries: Vec::new() };
        proof {
            assert(r@ =~= Seq::<(Seq<char>, Js)>::empty());
        }
        r
    }

    /// Adds an entry.
    pub fn with(self, key: &str, value: Json) -> (r: Fields)
        ensures
            r@ == self@.push((key@, model(value))),
    {
        let mut entries = self.entries;
        entries.push((text::copy(key), value));
        let r = Fields { entries };
        proof {
            assert(r@ =~= self@.push((key@, model(value))));
        }
        r
    }

    /// Adds an entry that is a text.
    pub fn with_text(self, key: &str, value: &str) -> (r: Fields)
        ensures
            r@ == self@.push((key@, Js::Text(value@))),
    {
        self.with(key, string(value))
    }

    /// The object.
    pub fn done(self) -> (r: Json)
        ensures
            model(r) == object_of(self@),
    {
        object(self.entries)
    }
}

/// A list that is being made, item by item.
#[derive(Debug)]
pub struct Items {
    pub items: Vec<Json>,
}

impl View for Items {
    type V = Seq<Js>;

    open spec fn view(&self) -> Seq<Js> {
        models(self.items@)
    }
}

impl Items {
    /// A list without items.
    pub fn new() -> (r: Items)
        ensures
            r@ == Seq::<Js>::empty(),
    {
        let r = Items { items: Vec::new() };
        proof {
            assert(r@ =~= Seq::<Js>::empty());
        }
        r
    }

    /// Adds an item.
    pub fn with(self, value: Json) -> (r: Items)
        ensures
            r@ == self@.push(model(value)),
    {
        let mut items = self.items;
        items.push(value);
        let r = Items { items };
        proof {
            assert(r@ =~= self@.push(model(value)));
        }
        r
    }

    /// Adds an item that is a text.
    pub fn with_text(self, value: &str) -> (r: Items)
        ensures
            r@ == self@.push(Js::Text(value@)),
    {
        self.with(string(value))
    }

    /// The list.
    pub fn done(self) -> (r: Json)
        ensures
            model(r) == Js::Array(self@),
    {
        array(self.items)
    }
}

} // verus!
