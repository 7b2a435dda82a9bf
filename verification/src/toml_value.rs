//! TOML documents: what a parsed document holds, as plain data.
use crate::text;
use vstd::prelude::*;

verus! {

/// What a TOML value holds. Numbers with a fraction and dates are `Other`:
/// no field of a unit takes one.
pub ghost enum Toml {
    Text(Seq<char>),
    Integer(i64),
    Boolean(bool),
    Array(Seq<Toml>),
    Table(Seq<(Seq<char>, Toml)>),
    Other,
}

/// A TOML value as plain data. A table lists its entries by increasing key.
#[derive(Debug)]
pub enum TomlValue {
    Text(String),
    Integer(i64),
    Boolean(bool),
    Array(Vec<TomlValue>),
    Table(Vec<(String, TomlValue)>),
    Other,
}

/// The model of a value.
pub open spec fn model(v: TomlValue) -> Toml
    decreases v,
{
    match v {
        TomlValue::Text(s) => Toml::Text(s@),
        TomlValue::Integer(i) => Toml::Integer(i),
        TomlValue::Boolean(b) => Toml::Boolean(b),
        TomlValue::Array(a) => Toml::Array(
            Seq::new(
                a@.len(),
                |i: int|
                    if 0 <= i < a@.len() {
                        model(a@[i])
                    } else {
                        Toml::Other
                    },
            ),
        ),
        TomlValue::Table(t) => Toml::Table(
            Seq::new(
                t@.len(),
                |i: int|
                    if 0 <= i < t@.len() {
                        (t@[i].0@, model(t@[i].1))
                    } else {
                        (Seq::<char>::empty(), Toml::Other)
                    },
            ),
        ),
        TomlValue::Other => Toml::Other,
    }
}

/// The type `toml::Value`.
#[verifier::external_type_specification]
#[verifier::external_body]
pub struct ExTomlValue(toml::Value);

/// What a `toml::Value` holds.
pub uninterp spec fn held(v: toml::Value) -> Toml;

/// The document that `str::parse::<toml::Table>` reads in a text, or its error
/// message, by name.
pub uninterp spec fn document(s: Seq<char>) -> Result<Toml, Seq<char>>;

/// Calls `str::parse::<toml::Table>`: what comes back depends on the text alone.
#[verifier::external_body]
fn parse_document(s: &str) -> (r: Result<toml::Value, String>)
    ensures
        match r {
            Ok(v) => document(s@) == Ok::<Toml, Seq<char>>(held(v)) && held(v) is Table,
            Err(e) => document(s@) == Err::<Toml, Seq<char>>(e@),
        },
{
    match s.parse::<toml::Table>() {
        Ok(t) => Ok(toml::Value::Table(t)),
        Err(e) => Err(e.to_string()),
    }
}

/// One level of a `toml::Value`.
pub enum Layer {
    Text(String),
    Integer(i64),
    Boolean(bool),
    Array(Vec<toml::Value>),
    Table(Vec<(String, toml::Value)>),
    Other,
}

/// What one level of a value holds.
pub open spec fn layer_held(l: Layer) -> Toml {
    match l {
        Layer::Text(s) => Toml::Text(s@),
        Layer::Integer(i) => Toml::Integer(i),
        Layer::Boolean(b) => Toml::Boolean(b),
        Layer::Array(a) => Toml::Array(Seq::new(a@.len(), |i: int| held(a@[i]))),
        Layer::Table(t) => Toml::Table(Seq::new(t@.len(), |i: int| (t@[i].0@, held(t@[i].1)))),
        Layer::Other => Toml::Other,
    }
}

/// Takes the outermost level off a `toml::Value`: its variant and what the
/// variant carries, the entries of a table in the order of `toml::Table`'s
/// iterator.
#[verifier::external_body]
fn open_layer(v: toml::Value) -> (r: Layer)
    ensures
        layer_held(r) == held(v),
{
    match v {
        toml::Value::String(s) => Layer::Text(s),
        toml::Value::Integer(i) => Layer::Integer(i),
        toml::Value::Boolean(b) => Layer::Boolean(b),
        toml::Value::Array(a) => Layer::Array(a),
        toml::Value::Table(t) => Layer::Table(t.into_iter().collect()),
        toml::Value::Float(_) => Layer::Other,
        toml::Value::Datetime(_) => Layer::Other,
    }
}

/// The plain form of a `toml::Value`.
fn plain(v: toml::Value) -> (r: TomlValue)
    ensures
        model(r) == held(v),
    decreases held(v),
{
    let ghost whole = held(v);
    match open_layer(v) {
        Layer::Text(s) => TomlValue::Text(s),
        Layer::Integer(i) => TomlValue::Integer(i),
        Layer::Boolean(b) => TomlValue::Boolean(b),
        Layer::Other => TomlValue::Other,
        Layer::Array(a) => {
            let mut rest = a;
            let ghost all = rest@;
            let ghost items = Seq::new(all.len(), |i: int| held(all[i]));
            let mut out: Vec<TomlValue> = Vec::new();
            proof {
                assert(whole == Toml::Array(items));
            }
            while rest.len() > 0
                invariant
                    items == Seq::new(all.len(), |i: int| held(all[i])),
                    whole == Toml::Array(items),
                    whole == held(v),
                    out@.len() + rest@.len() == all.len(),
                    rest@ == all.skip(out@.len() as int),
                    forall|i: int| 0 <= i < out@.len() ==> model(#[trigger] out@[i]) == items[i],
                decreases rest.len(),
            {
                let ghost n = out@.len() as int;
                let x = rest.remove(0);
                proof {
                    assert(x == all[n]);
                    assert(items[n] == held(x));
                    assert(decreases_to!(whole => whole->Array_0));
                    assert(decreases_to!(whole->Array_0 => whole->Array_0[n]));
                    assert(rest@ =~= all.skip(n + 1));
                }
                out.push(plain(x));
            }
            let r = TomlValue::Array(out);
            proof {
                assert(model(r)->Array_0 =~= items);
            }
            r
        },
        Layer::Table(t) => {
            let mut rest = t;
            let ghost all = rest@;
            let ghost items = Seq::new(all.len(), |i: int| (all[i].0@, held(all[i].1)));
            let mut out: Vec<(String, TomlValue)> = Vec::new();
            proof {
                assert(whole == Toml::Table(items));
            }
            while rest.len() > 0
                invariant
                    items == Seq::new(all.len(), |i: int| (all[i].0@, held(all[i].1))),
                    whole == Toml::Table(items),
                    whole == held(v),
                    out@.len() + rest@.len() == all.len(),
                    rest@ == all.skip(out@.len() as int),
                    forall|i: int|
                        0 <= i < out@.len() ==> (#[trigger] out@[i]).0@ == items[i].0 && model(
                            out@[i].1,
                        ) == items[i].1,
                decreases rest.len(),
            {
                let ghost n = out@.len() as int;
                let (k, x) = rest.remove(0);
                proof {
                    assert((k, x) == all[n]);
                    assert(items[n] == (k@, held(x)));
                    assert(decreases_to!(whole => whole->Table_0));
                    assert(decreases_to!(whole->Table_0 => whole->Table_0[n]));
                    assert(decreases_to!(whole->Table_0[n] => whole->Table_0[n].1));
                    assert(rest@ =~= all.skip(n + 1));
                }
                out.push((k, plain(x)));
            }
            let r = TomlValue::Table(out);
            proof {
                assert(model(r)->Table_0 =~= items);
            }
            r
        },
    }
}

/// Reads a TOML document, or says what is wrong with it.
pub fn read(s: &str) -> (r: Result<TomlValue, String>)
    ensures
        match r {
            Ok(v) => document(s@) == Ok::<Toml, Seq<char>>(model(v)) && model(v) is Table,
            Err(e) => document(s@) == Err::<Toml, Seq<char>>(e@),
        },
{
    match parse_document(s) {
        Ok(v) => Ok(plain(v)),
        Err(e) => Err(e),
    }
}

/// The value under a key of a table.
pub open spec fn field(t: Seq<(Seq<char>, Toml)>, key: Seq<char>) -> Option<Toml>
    decreases t.len(),
{
    if t.len() == 0 {
        None
    } else if t[0].0 == key {
        Some(t[0].1)
    } else {
        field(t.skip(1), key)
    }
}

/// The text in a value that is a text.
pub open spec fn as_text(v: Option<Toml>) -> Option<Seq<char>> {
    match v {
        Some(Toml::Text(s)) => Some(s),
        _ => None,
    }
}

/// The flag in a value that is a flag.
pub open spec fn as_flag(v: Option<Toml>) -> Option<bool> {
    match v {
        Some(Toml::Boolean(b)) => Some(b),
        _ => None,
    }
}

/// The entries of a plain table, as modelled.
pub open spec fn entries(t: Seq<(String, TomlValue)>) -> Seq<(Seq<char>, Toml)> {
    Seq::new(t.len(), |i: int| (t[i].0@, model(t[i].1)))
}

/// The model of a table is the model of its entries.
pub proof fn lemma_table(v: TomlValue)
    ensures
        v matches TomlValue::Table(t) ==> model(v) == Toml::Table(entries(t@)),
        v matches TomlValue::Array(a) ==> model(v) == Toml::Array(
            Seq::new(a@.len(), |i: int| model(a@[i])),
        ),
{
    match v {
        TomlValue::Table(t) => {
            assert(model(v)->Table_0 =~= entries(t@));
        },
        TomlValue::Array(a) => {
            assert(model(v)->Array_0 =~= Seq::new(a@.len(), |i: int| model(a@[i])));
        },
        _ => {},
    }
}

/// Looks up a key in a table.
pub fn get<'a>(t: &'a Vec<(String, TomlValue)>, key: &str) -> (r: Option<&'a TomlValue>)
    ensures
        match r {
            Some(v) => field(entries(t@), key@) == Some(model(*v)),
            None => field(entries(t@), key@) is None,
        },
{
    let mut i: usize = 0;
    let ghost all = entries(t@);
    proof {
        assert(all.skip(0) =~= all);
    }
    while i < t.len()
        invariant
            i <= t.len(),
            all == entries(t@),
            field(all.skip(i as int), key@) == field(all, key@),
        decreases t.len() - i,
    {
        proof {
            assert(all.skip(i as int)[0] == all[i as int]);
            assert(all.skip(i as int).skip(1) =~= all.skip(i + 1));
        }
        if text::same(t[i].0.as_str(), key) {
            return Some(&t[i].1);
        }
        i += 1;
    }
    None
}

/// Looks up a text in a table.
pub fn get_text<'a>(t: &'a Vec<(String, TomlValue)>, key: &str) -> (r: Option<&'a String>)
    ensures
        match r {
            Some(s) => as_text(field(entries(t@), key@)) == Some(s@),
            None => as_text(field(entries(t@), key@)) is None,
        },
{
    match get(t, key) {
        Some(TomlValue::Text(s)) => Some(s),
        _ => None,
    }
}

/// Looks up a flag in a table.
pub fn get_flag(t: &Vec<(String, TomlValue)>, key: &str) -> (r: Option<bool>)
    ensures
        r == as_flag(field(entries(t@), key@)),
{
    match get(t, key) {
        Some(TomlValue::Boolean(b)) => Some(*b),
        _ => None,
    }
}

} // verus!
