use psy::protocol::RestartPolicy;
use psy::psyfile::{parse_str, parse_str_on};

const README: &str = r#"
[db]
command = "docker run --rm -p 5432:5432 postgres:16"

[redis]
command = "redis-server"
platforms = ["linux", "macos"]

[cache]
command = "echo starting cache"
platform.linux.command = "redis-cli monitor"
platform.windows.command = "echo no redis on windows"
platform.macos.command = "redis-cli monitor"

[api]
command = "cargo run --bin api"
env = { PORT = "3000" }
platform.windows.env = { PORT = "3001", RUST_LOG = "debug" }
platform.windows.restart = "always"
"#;

fn os(name: &str) -> Option<String> {
    Some(name.to_string())
}

#[test]
fn units_for_other_systems_are_invisible() {
    let p = parse_str_on(README, &os("windows")).unwrap();
    assert!(p.units.get("redis").is_none());
    assert_eq!(p.units.len(), 3);
    let p = parse_str_on(README, &os("linux")).unwrap();
    assert!(p.units.get("redis").is_some());
}

#[test]
fn fields_are_overridden_per_system() {
    let p = parse_str_on(README, &os("linux")).unwrap();
    assert_eq!(p.units.get("cache").unwrap().command, "redis-cli monitor");
    let p = parse_str_on(README, &os("windows")).unwrap();
    assert_eq!(p.units.get("cache").unwrap().command, "echo no redis on windows");
    assert_eq!(p.units.get("api").unwrap().restart, RestartPolicy::Always);
    let p = parse_str(README).unwrap();
    assert_eq!(p.units.get("cache").unwrap().command, "echo starting cache");
}

#[test]
fn variables_are_merged_per_system() {
    let p = parse_str_on(README, &os("windows")).unwrap();
    let env = &p.units.get("api").unwrap().env;
    assert_eq!(env.get("PORT").unwrap(), "3001");
    assert_eq!(env.get("RUST_LOG").unwrap(), "debug");
    let p = parse_str_on(README, &os("macos")).unwrap();
    let env = &p.units.get("api").unwrap().env;
    assert_eq!(env.get("PORT").unwrap(), "3000");
    assert!(env.get("RUST_LOG").is_none());
}

#[test]
fn unknown_systems_are_refused() {
    assert!(parse_str_on("[a]\ncommand = \"x\"\nplatforms = [\"plan9\"]\n", &os("linux")).is_err());
    assert!(parse_str_on("[a]\ncommand = \"x\"\nplatform.plan9.command = \"y\"\n", &os("linux")).is_err());
    assert!(parse_str_on("[a]\ncommand = \"x\"\nplatform.linux.singleton = true\n", &os("linux")).is_err());
}
