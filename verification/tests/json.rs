use psy::json::{array, entry, get, get_array, get_flag, get_number, get_text, object, read, string};
use psy::json;
use psy::json::{write_pretty, Fields, Items, Json};

#[test]
fn reading_keeps_every_kind_of_value() {
    let v = read(r#"{"a":null,"b":true,"c":7,"d":-7,"e":"x","f":[1,2]}"#).unwrap();
    assert!(matches!(get(&v, "a"), Some(Json::Null)));
    assert_eq!(get_flag(&v, "b"), Some(true));
    assert_eq!(get_number(&v, "c"), Some(7));
    assert!(matches!(get(&v, "d"), Some(Json::Negative(-7))));
    assert_eq!(get_text(&v, "e").unwrap(), "x");
    assert_eq!(get_array(&v, "f").unwrap().len(), 2);
    assert!(get(&v, "g").is_none());
    assert!(get_text(&v, "c").is_none());
}

#[test]
fn what_is_not_json_is_refused() {
    assert!(read("{").is_err());
    assert!(read("").is_err());
    assert!(read("nul").is_err());
}

#[test]
fn writing_gives_compact_text() {
    let v = object(vec![
        entry("name", string("a\"b")),
        entry("list", array(vec![Json::Unsigned(1), Json::Null])),
    ]);
    let text = json::write(&v);
    assert!(text == r#"{"list":[1,null],"name":"a\"b"}"# || text == r#"{"name":"a\"b","list":[1,null]}"#);
}

#[test]
fn pretty_writing_is_indented() {
    let v = object(vec![entry("name", string("x"))]);
    assert_eq!(write_pretty(&v), "{\n  \"name\": \"x\"\n}");
}

#[test]
fn written_values_read_back() {
    let v = Fields::new()
        .with_text("a", "b")
        .with("n", Json::Negative(-3))
        .with("l", Items::new().with_text("x").with(Json::Bool(false)).done())
        .done();
    let back = read(&json::write(&v)).unwrap();
    assert_eq!(get_text(&back, "a").unwrap(), "b");
    assert!(matches!(get(&back, "n"), Some(Json::Negative(-3))));
    let l = get_array(&back, "l").unwrap();
    assert!(matches!(&l[0], Json::Text(s) if s == "x"));
    assert!(matches!(l[1], Json::Bool(false)));
}

#[test]
fn a_repeated_key_counts_once_with_its_last_value() {
    let v = read(r#"{"a":1,"a":2}"#).unwrap();
    assert_eq!(get_number(&v, "a"), Some(2));
}

#[test]
fn deep_values_read_back_up_to_a_limit() {
    let mut v = Json::Null;
    for _ in 0..127 {
        v = array(vec![v]);
    }
    assert!(read(&json::write(&v)).is_ok());
    assert!(read(&write_pretty(&v)).is_ok());
    assert!(read(&json::write(&array(vec![v]))).is_err());
}
