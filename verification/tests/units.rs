use psy::order::{detect_cycles, resolve_start_order, validate};
use psy::protocol::{ProbeArg, ProbeKindArg};
use psy::platform::System;
use psy::psyfile::{candidates, candidates_on, discover, discover_on, load, missing, parse, parse_str};
use psy::psyfile::{parse_duration, read_opt_probe, read_probe, ProbeKind, Psyfile};
use psy::root::cascade::cascade_restarts;
use psy::root::SharedRoot;
use psy::time::Duration;

const CHAIN: &str = r#"
[db]
command = "db"
[api]
command = "api"
depends_on = [{ name = "db", restart = true }]
[web]
command = "web"
depends_on = [{ name = "api", restart = true }]
[aside]
command = "aside"
depends_on = ["db"]
"#;

#[test]
fn dependencies_start_first() {
    let p = parse_str(CHAIN).unwrap();
    let o = resolve_start_order(&p, &vec!["web".to_string()]).unwrap();
    assert_eq!(o, vec!["db", "api", "web"]);
    assert!(validate(&p).is_ok());
}

#[test]
fn cycles_are_found() {
    let p = parse_str("[a]\ncommand = \"a\"\ndepends_on = [\"b\"]\n[b]\ncommand = \"b\"\ndepends_on = [\"a\"]\n")
        .unwrap();
    assert!(detect_cycles(&p).is_err());
    assert!(validate(&p).is_err());
    assert!(resolve_start_order(&p, &vec!["a".to_string()]).is_err());
}

fn cascade(p: &Result<Option<Psyfile>, String>, restarted: &str) -> Vec<String> {
    let r = SharedRoot::new("/s".to_string(), 1, System::Unix);
    cascade_restarts(p, &r, restarted)
}

#[test]
fn restarts_cascade_in_dependency_order() {
    let p = Ok(Some(parse_str(CHAIN).unwrap()));
    assert_eq!(cascade(&p, "db"), vec!["api", "web"]);
    assert_eq!(cascade(&p, "api"), vec!["web"]);
    assert!(cascade(&p, "web").is_empty());
    assert!(cascade(&p, "aside").is_empty());
}

#[test]
fn restarts_cascade_through_later_units_first() {
    let text = r#"
[web]
command = "web"
depends_on = [{ name = "api", restart = true }, { name = "db", restart = true }]
[api]
command = "api"
depends_on = [{ name = "db", restart = true }]
[db]
command = "db"
"#;
    let p = Ok(Some(parse_str(text).unwrap()));
    assert_eq!(cascade(&p, "db"), vec!["api", "web"]);
}

#[test]
fn a_psyfile_is_looked_for_upwards() {
    let c = candidates("/a/b");
    assert_eq!(
        c,
        vec!["/a/b/Psyfile", "/a/b/Psyfile.toml", "/a/Psyfile", "/a/Psyfile.toml", "/Psyfile", "/Psyfile.toml"]
    );
    let there = vec!["/a/Psyfile.toml".to_string(), "/Psyfile".to_string()];
    assert_eq!(discover("/a/b", &there), Some("/a/Psyfile.toml".to_string()));
    assert_eq!(discover("/a/b", &vec![]), None);
    assert_eq!(candidates("a"), vec!["a/Psyfile", "a/Psyfile.toml", "Psyfile", "Psyfile.toml"]);
    assert_eq!(candidates("//a//"), vec!["//a//Psyfile", "//a//Psyfile.toml", "/Psyfile", "/Psyfile.toml"]);
}

#[test]
fn a_psyfile_is_looked_for_up_to_the_root_of_a_drive() {
    let names = |from: &str| -> Vec<String> {
        candidates_on(System::Windows, from).into_iter().filter(|f| f.ends_with("Psyfile")).collect()
    };
    assert_eq!(names(r"C:\a"), vec![r"C:\a\Psyfile", r"C:\Psyfile"]);
    assert_eq!(names(r"C:\a\b"), vec![r"C:\a\b\Psyfile", r"C:\a\Psyfile", r"C:\Psyfile"]);
    assert_eq!(names("C:/a/b"), vec![r"C:/a/b\Psyfile", r"C:/a\Psyfile", "C:/Psyfile"]);
    assert_eq!(names(r"C:\"), vec![r"C:\Psyfile"]);
    assert_eq!(names("C:a"), vec![r"C:a\Psyfile", "C:Psyfile"]);
    assert_eq!(
        names(r"\\host\share\a"),
        vec![r"\\host\share\a\Psyfile", r"\\host\share\Psyfile"]
    );
    assert_eq!(names(r"\a"), vec![r"\a\Psyfile", r"\Psyfile"]);
    let there = vec![r"C:\Psyfile".to_string(), r"C:\a\Psyfile.toml".to_string()];
    assert_eq!(
        discover_on(System::Windows, r"C:\a\b", &there),
        Some(r"C:\a\Psyfile.toml".to_string())
    );
    assert_eq!(discover_on(System::Windows, r"C:\b", &there), Some(r"C:\Psyfile".to_string()));
    assert_eq!(discover_on(System::Windows, r"D:\b", &there), None);
    assert_eq!(
        candidates_on(System::Unix, r"C:\a"),
        vec![r"C:\a/Psyfile", r"C:\a/Psyfile.toml", "Psyfile", "Psyfile.toml"]
    );
}

#[test]
fn a_psyfile_that_cannot_be_read_is_reported() {
    assert!(missing("/x/Psyfile").contains("/x/Psyfile"));
    assert!(parse("/x/Psyfile", &Err("denied".to_string()), &None).is_err());
    let good = Ok("[a]\ncommand = \"x\"\n".to_string());
    assert_eq!(load("/x/Psyfile", &good, &None).unwrap().units.len(), 1);
    let cyclic = Ok("[a]\ncommand = \"x\"\ndepends_on = [\"a\"]\n".to_string());
    assert!(load("/x/Psyfile", &cyclic, &None).is_err());
    assert!(parse("/x/Psyfile", &cyclic, &None).is_ok());
}

#[test]
fn probes_in_requests_are_read() {
    let a = ProbeArg {
        kind: ProbeKindArg::Http { url: "http://localhost/".to_string() },
        interval: Some("500ms".to_string()),
        timeout: None,
        retries: Some(4),
    };
    let p = read_probe("ready", &a).unwrap();
    assert!(matches!(&p.probe, ProbeKind::Http(u) if u == "http://localhost/"));
    assert_eq!(p.interval, Duration::from_millis(500));
    assert_eq!(p.timeout, Duration::from_secs(30));
    assert_eq!(p.retries, Some(4));
    let bad = Some(ProbeArg {
        kind: ProbeKindArg::Exit { code: 0 },
        interval: Some("soon".to_string()),
        timeout: None,
        retries: None,
    });
    assert!(read_opt_probe("ready", &bad).is_err());
    assert!(read_opt_probe("ready", &None).unwrap().is_none());
}

#[test]
fn durations_in_milliseconds_are_read() {
    assert_eq!(parse_duration("200ms").unwrap(), Duration::from_millis(200));
    assert_eq!(parse_duration("2m").unwrap(), Duration::from_secs(120));
    assert_eq!(parse_duration("1h").unwrap(), Duration::from_secs(3600));
    assert!(parse_duration("ms").is_err());
}

#[test]
fn toml_that_does_not_parse_is_reported() {
    let e = parse_str("[a").unwrap_err();
    assert!(e.starts_with("invalid TOML: "));
}

#[test]
fn only_what_can_be_reached_spoils_a_start_order() {
    let p = parse_str(
        r#"
[db]
command = "db"
[api]
command = "api"
depends_on = ["db"]
[a]
command = "a"
depends_on = ["b"]
[b]
command = "b"
depends_on = ["a"]
[lost]
command = "lost"
depends_on = ["nowhere"]
"#,
    )
    .unwrap();
    let order = |n: &str| resolve_start_order(&p, &vec![n.to_string()]);
    assert_eq!(order("api").unwrap(), vec!["db", "api"]);
    assert!(order("a").unwrap_err().contains("circular dependency"));
    assert_eq!(order("lost").unwrap_err(), "unknown unit 'nowhere'");
    assert_eq!(order("nobody").unwrap_err(), "unknown unit 'nobody'");
}
