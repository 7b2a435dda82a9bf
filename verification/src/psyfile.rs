//! Unit definitions: reading them, checking them, ordering them, and building
//! the command lines they stand for.
use crate::api;
use crate::names::NameMap;
use crate::order;
use crate::platform::paths;
use crate::platform::System;
use crate::platforms;
use crate::ports;
use crate::protocol::{PortDefArg, ProbeArg, ProbeKindArg, RestartPolicy};
use crate::text;
use crate::time::Duration;
use crate::toml_value;
use crate::toml_value::{Toml, TomlValue};
use vstd::prelude::*;

pub use crate::order::{resolve_start_order, validate};
pub use crate::schema::json_schema;
pub use crate::shell::{
    build_command_with_args, build_shell_command, interpolate, shell_escape, shell_join,
};

verus! {

/// The units of a Psyfile, by name.
#[derive(Debug)]
pub struct Psyfile {
    pub units: NameMap<UnitDef>,
}

/// The definition of a unit.
#[derive(Debug)]
pub struct UnitDef {
    pub command: String,
    pub restart: RestartPolicy,
    pub env: NameMap<String>,
    pub depends_on: Vec<Dependency>,
    pub singleton: bool,
    pub interactive: bool,
    /// Ports that a process of the unit is given.
    pub ports: Vec<PortDefArg>,
    /// The units whose ports its texts refer to.
    pub port_units: Vec<String>,
    /// Whether the unit runs as a root of its own.
    pub sub_root: bool,
    pub working_dir: Option<String>,
    pub ready: Option<ProbeConfig>,
    pub healthcheck: Option<ProbeConfig>,
}

/// A unit that must be up before another one.
#[derive(Debug)]
pub struct Dependency {
    pub name: String,
    pub restart: bool,
}

/// What a probe tests.
#[derive(Debug)]
pub enum ProbeKind {
    Exit(i32),
    Tcp(String),
    Http(String),
    Exec(String),
}

/// A probe and its timing.
#[derive(Debug)]
pub struct ProbeConfig {
    pub probe: ProbeKind,
    pub interval: Duration,
    pub timeout: Duration,
    pub retries: Option<u32>,
}

/// What a dependency says.
pub ghost struct DependencyView {
    pub name: Seq<char>,
    pub restart: bool,
}

/// What a probe kind says.
pub ghost enum ProbeKindView {
    Exit(i32),
    Tcp(Seq<char>),
    Http(Seq<char>),
    Exec(Seq<char>),
}

/// What a probe says.
pub ghost struct ProbeView {
    pub probe: ProbeKindView,
    pub interval: Duration,
    pub timeout: Duration,
    pub retries: Option<u32>,
}

/// What a unit definition says.
#[verifier::ext_equal]
pub ghost struct UnitView {
    pub command: Seq<char>,
    pub restart: RestartPolicy,
    pub env: Map<Seq<char>, Seq<char>>,
    pub depends_on: Seq<DependencyView>,
    pub singleton: bool,
    pub interactive: bool,
    pub ports: Seq<(Seq<char>, Option<u16>)>,
    pub port_units: Seq<Seq<char>>,
    pub sub_root: bool,
    pub working_dir: Option<Seq<char>>,
    pub ready: Option<ProbeView>,
    pub healthcheck: Option<ProbeView>,
}

impl View for Dependency {
    type V = DependencyView;

    open spec fn view(&self) -> DependencyView {
        DependencyView { name: self.name@, restart: self.restart }
    }
}

impl View for ProbeKind {
    type V = ProbeKindView;

    open spec fn view(&self) -> ProbeKindView {
        match *self {
            ProbeKind::Exit(c) => ProbeKindView::Exit(c),
            ProbeKind::Tcp(s) => ProbeKindView::Tcp(s@),
            ProbeKind::Http(s) => ProbeKindView::Http(s@),
            ProbeKind::Exec(s) => ProbeKindView::Exec(s@),
        }
    }
}

impl View for ProbeConfig {
    type V = ProbeView;

    open spec fn view(&self) -> ProbeView {
        ProbeView {
            probe: self.probe@,
            interval: self.interval,
            timeout: self.timeout,
            retries: self.retries,
        }
    }
}

impl Clone for Dependency {
    fn clone(&self) -> (r: Self)
        ensures
            r@ == self@,
    {
        Dependency { name: text::copy(self.name.as_str()), restart: self.restart }
    }
}

impl Clone for ProbeKind {
    fn clone(&self) -> (r: Self)
        ensures
            r@ == self@,
    {
        match self {
            ProbeKind::Exit(c) => ProbeKind::Exit(*c),
            ProbeKind::Tcp(s) => ProbeKind::Tcp(text::copy(s.as_str())),
            ProbeKind::Http(s) => ProbeKind::Http(text::copy(s.as_str())),
            ProbeKind::Exec(s) => ProbeKind::Exec(text::copy(s.as_str())),
        }
    }
}

impl Clone for ProbeConfig {
    fn clone(&self) -> (r: Self)
        ensures
            r@ == self@,
    {
        ProbeConfig {
            probe: self.probe.clone(),
            interval: self.interval,
            timeout: self.timeout,
            retries: self.retries,
        }
    }
}

/// The variables of an environment.
pub open spec fn env_view(m: NameMap<String>) -> Map<Seq<char>, Seq<char>> {
    m@.map_values(|s: String| s@)
}

/// What a list of dependencies says.
pub open spec fn deps_view(d: Seq<Dependency>) -> Seq<DependencyView> {
    d.map_values(|x: Dependency| x@)
}

/// What an optional probe says.
pub open spec fn probe_view(p: Option<ProbeConfig>) -> Option<ProbeView> {
    match p {
        Some(c) => Some(c@),
        None => None,
    }
}

/// A probe as it is sent.
#[verifier::ext_equal]
pub ghost struct ProbeArgView {
    pub kind: ProbeKindView,
    pub interval: Option<Seq<char>>,
    pub timeout: Option<Seq<char>>,
    pub retries: Option<u32>,
}

impl View for ProbeKindArg {
    type V = ProbeKindView;

    open spec fn view(&self) -> ProbeKindView {
        match self {
            ProbeKindArg::Tcp { addr } => ProbeKindView::Tcp(addr@),
            ProbeKindArg::Http { url } => ProbeKindView::Http(url@),
            ProbeKindArg::Exec { command } => ProbeKindView::Exec(command@),
            ProbeKindArg::Exit { code } => ProbeKindView::Exit(*code),
        }
    }
}

impl View for ProbeArg {
    type V = ProbeArgView;

    open spec fn view(&self) -> ProbeArgView {
        ProbeArgView {
            kind: self.kind@,
            interval: text::opt_text(self.interval),
            timeout: text::opt_text(self.timeout),
            retries: self.retries,
        }
    }
}

impl View for UnitDef {
    type V = UnitView;

    open spec fn view(&self) -> UnitView {
        UnitView {
            command: self.command@,
            restart: self.restart,
            env: env_view(self.env),
            depends_on: deps_view(self.depends_on@),
            singleton: self.singleton,
            interactive: self.interactive,
            ports: api::ports_asked(self.ports@),
            port_units: text::texts(self.port_units@),
            sub_root: self.sub_root,
            working_dir: text::opt_text(self.working_dir),
            ready: probe_view(self.ready),
            healthcheck: probe_view(self.healthcheck),
        }
    }
}

// ---------------------------------------------------------------------------
// Durations
// ---------------------------------------------------------------------------

/// The message for a text that is no duration.
pub open spec fn bad_duration(s: Seq<char>) -> Seq<char> {
    "invalid duration '"@ + s + "': expected format like '1s', '5m', '2h'"@
}

/// The message for a duration in an unknown unit.
pub open spec fn bad_duration_suffix(s: Seq<char>, suffix: char) -> Seq<char> {
    "invalid duration suffix '"@ + seq![suffix] + "' in '"@ + s
        + "': expected 'ms', 's', 'm', or 'h'"@
}

/// The duration that a text stands for: a number and one of the units `ms`,
/// `s`, `m` and `h`, with white space round it.
pub open spec fn duration_of(s: Seq<char>) -> Result<Duration, Seq<char>> {
    let t = text::trimmed(s);
    if t.len() == 0 {
        Err("empty duration string"@)
    } else if text::ends_with(t, "ms"@) {
        match text::unsigned(t.take(t.len() - 2), u64::MAX as nat) {
            Some(n) => Ok(
                Duration { secs: (n / 1000) as u64, nanos: ((n % 1000) * 1_000_000) as u32 },
            ),
            None => Err(bad_duration(t)),
        }
    } else {
        let unit = t.last();
        match text::unsigned(t.drop_last(), u64::MAX as nat) {
            Some(n) => {
                let secs = if unit == 's' {
                    n
                } else if unit == 'm' {
                    n * 60
                } else {
                    n * 3600
                };
                if unit != 's' && unit != 'm' && unit != 'h' {
                    Err(bad_duration_suffix(t, unit))
                } else if secs > u64::MAX {
                    Err(bad_duration(t))
                } else {
                    Ok(Duration { secs: secs as u64, nanos: 0 })
                }
            },
            None => Err(bad_duration(t)),
        }
    }
}

fn bad_duration_text(s: &str) -> (r: String)
    ensures
        r@ == bad_duration(s@),
{
    text::concat3("invalid duration '", s, "': expected format like '1s', '5m', '2h'")
}

/// Reads a duration such as `500ms`, `1s`, `5m` or `2h`.
pub fn parse_duration(s: &str) -> (r: Result<Duration, String>)
    ensures
        match r {
            Ok(d) => duration_of(s@) == Ok::<Duration, Seq<char>>(d),
            Err(e) => duration_of(s@) == Err::<Duration, Seq<char>>(e@),
        },
{
    let all = text::chars_of(s);
    let t = text::trim_chars(&all);
    let n = t.len();
    if n == 0 {
        return Err(text::copy("empty duration string"));
    }
    let shown = text::string_of(&t);
    let ms = text::chars_of("ms");
    proof {
        reveal_strlit("ms");
    }
    if n >= 2 && text::matches_at(&t, &ms, n - 2) {
        let digits = text::part(&t, 0, n - 2);
        proof {
            assert(digits@ =~= t@.take(t@.len() - 2));
        }
        return match text::parse_u64(&digits) {
            Some(v) => Ok(Duration::from_millis(v)),
            None => Err(bad_duration_text(shown.as_str())),
        };
    }
    let unit = t[n - 1];
    let digits = text::part(&t, 0, n - 1);
    proof {
        assert(digits@ =~= t@.drop_last());
        assert(!text::ends_with(t@, "ms"@));
    }
    match text::parse_u64(&digits) {
        Some(v) => {
            if unit == 's' {
                Ok(Duration::from_secs(v))
            } else if unit == 'm' {
                if v > u64::MAX / 60 {
                    Err(bad_duration_text(shown.as_str()))
                } else {
                    Ok(Duration::from_secs(v * 60))
                }
            } else if unit == 'h' {
                if v > u64::MAX / 3600 {
                    Err(bad_duration_text(shown.as_str()))
                } else {
                    Ok(Duration::from_secs(v * 3600))
                }
            } else {
                let mut m = text::copy("invalid duration suffix '");
                m.push(unit);
                text::push_text(&mut m, "' in '");
                text::push_text(&mut m, shown.as_str());
                text::push_text(&mut m, "': expected 'ms', 's', 'm', or 'h'");
                proof {
                    assert(m@ =~= bad_duration_suffix(t@, unit));
                }
                Err(m)
            }
        },
        None => Err(bad_duration_text(shown.as_str())),
    }
}

// ---------------------------------------------------------------------------
// Reading units
// ---------------------------------------------------------------------------

/// The first key of a table that is not among the known ones.
pub open spec fn unknown_key(t: Seq<(Seq<char>, Toml)>, known: Seq<Seq<char>>) -> Option<Seq<char>>
    decreases t.len(),
{
    if t.len() == 0 {
        None
    } else if !known.contains(t[0].0) {
        Some(t[0].0)
    } else {
        unknown_key(t.skip(1), known)
    }
}

/// The texts of a list of words.
pub open spec fn words(v: Seq<&str>) -> Seq<Seq<char>> {
    Seq::new(v.len(), |i: int| v[i]@)
}

fn listed(word: &str, list: &Vec<&str>) -> (r: bool)
    ensures
        r == words(list@).contains(word@),
{
    let mut i: usize = 0;
    while i < list.len()
        invariant
            i <= list.len(),
            forall|j: int| 0 <= j < i ==> list@[j]@ != word@,
        decreases list.len() - i,
    {
        if text::same(list[i], word) {
            proof {
                assert(words(list@)[i as int] == word@);
            }
            return true;
        }
        i += 1;
    }
    false
}

fn find_unknown<'a>(t: &'a Vec<(String, TomlValue)>, known: &Vec<&str>) -> (r: Option<&'a String>)
    ensures
        match r {
            Some(k) => unknown_key(toml_value::entries(t@), words(known@)) == Some(k@),
            None => unknown_key(toml_value::entries(t@), words(known@)) is None,
        },
{
    let ghost all = toml_value::entries(t@);
    let mut i: usize = 0;
    proof {
        assert(all.skip(0) =~= all);
    }
    while i < t.len()
        invariant
            i <= t.len(),
            all == toml_value::entries(t@),
            unknown_key(all.skip(i as int), words(known@)) == unknown_key(all, words(known@)),
        decreases t.len() - i,
    {
        proof {
            assert(all.skip(i as int)[0] == all[i as int]);
            assert(all.skip(i as int).skip(1) =~= all.skip(i + 1));
        }
        if !listed(t[i].0.as_str(), known) {
            return Some(&t[i].0);
        }
        i += 1;
    }
    None
}

/// A message about a unit.
pub open spec fn unit_error(name: Seq<char>, rest: Seq<char>) -> Seq<char> {
    "unit '"@ + name + rest
}

pub(crate) fn unit_err(name: &str, rest: &str) -> (r: String)
    ensures
        r@ == unit_error(name@, rest@),
{
    text::concat3("unit '", name, rest)
}

/// A message about a unit and something else that has a name.
pub open spec fn unit_error_on(
    name: Seq<char>,
    before: Seq<char>,
    what: Seq<char>,
    after: Seq<char>,
) -> Seq<char> {
    "unit '"@ + name + before + what + after
}

pub(crate) fn unit_err_on(name: &str, before: &str, what: &str, after: &str) -> (r: String)
    ensures
        r@ == unit_error_on(name@, before@, what@, after@),
{
    let mut m = text::concat3("unit '", name, before);
    text::push_text(&mut m, what);
    text::push_text(&mut m, after);
    m
}

/// The restart policy that a unit's table sets. A value that is no text counts
/// as none.
pub open spec fn restart_of(name: Seq<char>, t: Seq<(Seq<char>, Toml)>) -> Result<
    RestartPolicy,
    Seq<char>,
> {
    match toml_value::as_text(toml_value::field(t, "restart"@)) {
        None => Ok(RestartPolicy::No),
        Some(s) => if s == "on-failure"@ || s == "on_failure"@ {
            Ok(RestartPolicy::OnFailure)
        } else if s == "always"@ {
            Ok(RestartPolicy::Always)
        } else if s == "no"@ {
            Ok(RestartPolicy::No)
        } else {
            Err(
                unit_error_on(
                    name,
                    "': invalid restart policy '"@,
                    s,
                    "', must be 'no', 'on-failure', or 'always'"@,
                ),
            )
        },
    }
}

fn parse_restart(name: &str, t: &Vec<(String, TomlValue)>) -> (r: Result<RestartPolicy, String>)
    ensures
        match r {
            Ok(p) => restart_of(name@, toml_value::entries(t@)) == Ok::<
                RestartPolicy,
                Seq<char>,
            >(p),
            Err(e) => restart_of(name@, toml_value::entries(t@)) == Err::<
                RestartPolicy,
                Seq<char>,
            >(e@),
        },
{
    proof {
        reveal_strlit("on-failure");
        reveal_strlit("on_failure");
        reveal_strlit("always");
        reveal_strlit("no");
    }
    match toml_value::get_text(t, "restart") {
        None => Ok(RestartPolicy::No),
        Some(s) => {
            if text::same(s.as_str(), "on-failure") || text::same(s.as_str(), "on_failure") {
                Ok(RestartPolicy::OnFailure)
            } else if text::same(s.as_str(), "always") {
                Ok(RestartPolicy::Always)
            } else if text::same(s.as_str(), "no") {
                Ok(RestartPolicy::No)
            } else {
                Err(
                    unit_err_on(
                        name,
                        "': invalid restart policy '",
                        s.as_str(),
                        "', must be 'no', 'on-failure', or 'always'",
                    ),
                )
            }
        },
    }
}

/// The variables in the entries of an `env` table, added to those at hand.
pub open spec fn env_entries(
    name: Seq<char>,
    t: Seq<(Seq<char>, Toml)>,
    m: Map<Seq<char>, Seq<char>>,
) -> Result<Map<Seq<char>, Seq<char>>, Seq<char>>
    decreases t.len(),
{
    if t.len() == 0 {
        Ok(m)
    } else {
        match t[0].1 {
            Toml::Text(v) => env_entries(name, t.skip(1), m.insert(t[0].0, v)),
            _ => Err(unit_error_on(name, "': env value for '"@, t[0].0, "' must be a string"@)),
        }
    }
}

/// The environment that a unit's table sets.
pub open spec fn env_of(name: Seq<char>, t: Seq<(Seq<char>, Toml)>) -> Result<
    Map<Seq<char>, Seq<char>>,
    Seq<char>,
> {
    match toml_value::field(t, "env"@) {
        None => Ok(Map::empty()),
        Some(Toml::Table(e)) => env_entries(name, e, Map::empty()),
        Some(_) => Err(unit_error(name, "': 'env' must be a table"@)),
    }
}

fn parse_env(name: &str, t: &Vec<(String, TomlValue)>) -> (r: Result<NameMap<String>, String>)
    ensures
        match r {
            Ok(m) => env_of(name@, toml_value::entries(t@)) == Ok::<
                Map<Seq<char>, Seq<char>>,
                Seq<char>,
            >(env_view(m)),
            Err(e) => env_of(name@, toml_value::entries(t@)) == Err::<
                Map<Seq<char>, Seq<char>>,
                Seq<char>,
            >(e@),
        },
{
    let mut m: NameMap<String> = NameMap::new();
    proof {
        assert(env_view(m) =~= Map::<Seq<char>, Seq<char>>::empty());
    }
    match toml_value::get(t, "env") {
        None => Ok(m),
        Some(v) => {
            proof {
                toml_value::lemma_table(*v);
            }
            match v {
                TomlValue::Table(e) => {
                    let ghost all = toml_value::entries(e@);
                    let ghost none = Map::<Seq<char>, Seq<char>>::empty();
                    let mut i: usize = 0;
                    proof {
                        assert(all.skip(0) =~= all);
                    }
                    while i < e.len()
                        invariant
                            i <= e.len(),
                            all == toml_value::entries(e@),
                            env_of(name@, toml_value::entries(t@)) == env_entries(name@, all, none),
                            env_entries(name@, all.skip(i as int), env_view(m)) == env_entries(
                                name@,
                                all,
                                none,
                            ),
                        decreases e.len() - i,
                    {
                        proof {
                            assert(all.skip(i as int)[0] == all[i as int]);
                            assert(all.skip(i as int).skip(1) =~= all.skip(i + 1));
                        }
                        match &e[i].1 {
                            TomlValue::Text(s) => {
                                let ghost before = m@;
                                let k = text::copy(e[i].0.as_str());
                                let val = text::copy(s.as_str());
                                m.insert(k, val);
                                proof {
                                    assert(env_view(m) =~= before.map_values(
                                        |x: String| x@,
                                    ).insert(k@, val@));
                                }
                            },
                            _ => {
                                return Err(
                                    unit_err_on(
                                        name,
                                        "': env value for '",
                                        e[i].0.as_str(),
                                        "' must be a string",
                                    ),
                                );
                            },
                        }
                        i += 1;
                    }
                    Ok(m)
                },
                _ => Err(unit_err(name, "': 'env' must be a table")),
            }
        },
    }
}

/// The keys that a dependency's table may have.
pub open spec fn dependency_fields() -> Seq<Seq<char>> {
    seq!["name"@, "restart"@]
}

/// The dependency that one entry of `depends_on` stands for.
pub open spec fn dependency_of(name: Seq<char>, v: Toml) -> Result<DependencyView, Seq<char>> {
    match v {
        Toml::Text(s) => Ok(DependencyView { name: s, restart: false }),
        Toml::Table(t) => match toml_value::as_text(toml_value::field(t, "name"@)) {
            None => Err(unit_error(name, "': depends_on table entry requires 'name' string"@)),
            Some(s) => match unknown_key(t, dependency_fields()) {
                Some(k) => Err(
                    unit_error_on(name, "': unknown field '"@, k, "' in depends_on entry"@),
                ),
                None => Ok(
                    DependencyView {
                        name: s,
                        restart: toml_value::as_flag(toml_value::field(t, "restart"@)) == Some(
                            true,
                        ),
                    },
                ),
            },
        },
        _ => Err(unit_error(name, "': 'depends_on' entries must be strings or tables"@)),
    }
}

fn parse_dependency(name: &str, v: &TomlValue) -> (r: Result<Dependency, String>)
    ensures
        match r {
            Ok(d) => dependency_of(name@, toml_value::model(*v)) == Ok::<
                DependencyView,
                Seq<char>,
            >(d@),
            Err(e) => dependency_of(name@, toml_value::model(*v)) == Err::<
                DependencyView,
                Seq<char>,
            >(e@),
        },
{
    proof {
        toml_value::lemma_table(*v);
    }
    match v {
        TomlValue::Text(s) => Ok(Dependency { name: text::copy(s.as_str()), restart: false }),
        TomlValue::Table(t) => {
            match toml_value::get_text(t, "name") {
                None => Err(unit_err(name, "': depends_on table entry requires 'name' string")),
                Some(s) => {
                    let known = vec!["name", "restart"];
                    proof {
                        assert(words(known@) =~= dependency_fields());
                    }
                    match find_unknown(t, &known) {
                        Some(k) => Err(
                            unit_err_on(
                                name,
                                "': unknown field '",
                                k.as_str(),
                                "' in depends_on entry",
                            ),
                        ),
                        None => {
                            let restart = match toml_value::get_flag(t, "restart") {
                                Some(b) => b,
                                None => false,
                            };
                            Ok(Dependency { name: text::copy(s.as_str()), restart })
                        },
                    }
                },
            }
        },
        _ => Err(unit_err(name, "': 'depends_on' entries must be strings or tables")),
    }
}

/// The dependencies that the entries of `depends_on` stand for, up to the first
/// bad one.
pub open spec fn dependencies_of(name: Seq<char>, a: Seq<Toml>) -> Result<
    Seq<DependencyView>,
    Seq<char>,
>
    decreases a.len(),
{
    if a.len() == 0 {
        Ok(Seq::empty())
    } else {
        match dependencies_of(name, a.drop_last()) {
            Err(e) => Err(e),
            Ok(d) => match dependency_of(name, a.last()) {
                Err(e) => Err(e),
                Ok(x) => Ok(d.push(x)),
            },
        }
    }
}

/// A bad entry of `depends_on` makes every longer list bad in the same way.
proof fn lemma_dependencies_error(name: Seq<char>, a: Seq<Toml>, k: int)
    requires
        0 <= k <= a.len(),
        dependencies_of(name, a.take(k)) is Err,
    ensures
        dependencies_of(name, a) == dependencies_of(name, a.take(k)),
    decreases a.len() - k,
{
    if k < a.len() {
        assert(a.take(k + 1).drop_last() =~= a.take(k));
        lemma_dependencies_error(name, a, k + 1);
    } else {
        assert(a.take(k) =~= a);
    }
}

/// The dependencies that a unit's table sets.
pub open spec fn depends_on_of(name: Seq<char>, t: Seq<(Seq<char>, Toml)>) -> Result<
    Seq<DependencyView>,
    Seq<char>,
> {
    match toml_value::field(t, "depends_on"@) {
        None => Ok(Seq::empty()),
        Some(Toml::Array(a)) => dependencies_of(name, a),
        Some(_) => Err(unit_error(name, "': 'depends_on' must be an array"@)),
    }
}

fn parse_depends_on(name: &str, t: &Vec<(String, TomlValue)>) -> (r: Result<
    Vec<Dependency>,
    String,
>)
    ensures
        match r {
            Ok(d) => depends_on_of(name@, toml_value::entries(t@)) == Ok::<
                Seq<DependencyView>,
                Seq<char>,
            >(deps_view(d@)),
            Err(e) => depends_on_of(name@, toml_value::entries(t@)) == Err::<
                Seq<DependencyView>,
                Seq<char>,
            >(e@),
        },
{
    let mut out: Vec<Dependency> = Vec::new();
    proof {
        assert(deps_view(out@) =~= Seq::<DependencyView>::empty());
    }
    match toml_value::get(t, "depends_on") {
        None => Ok(out),
        Some(v) => {
            proof {
                toml_value::lemma_table(*v);
            }
            match v {
                TomlValue::Array(a) => {
                    let ghost all = Seq::new(a@.len(), |i: int| toml_value::model(a@[i]));
                    let mut i: usize = 0;
                    while i < a.len()
                        invariant
                            i <= a.len(),
                            all == Seq::new(a@.len(), |i: int| toml_value::model(a@[i])),
                            depends_on_of(name@, toml_value::entries(t@)) == dependencies_of(
                                name@,
                                all,
                            ),
                            dependencies_of(name@, all.take(i as int)) == Ok::<
                                Seq<DependencyView>,
                                Seq<char>,
                            >(deps_view(out@)),
                        decreases a.len() - i,
                    {
                        proof {
                            assert(all.take(i + 1).drop_last() =~= all.take(i as int));
                            assert(all.take(i + 1).last() == toml_value::model(a@[i as int]));
                        }
                        match parse_dependency(name, &a[i]) {
                            Ok(d) => {
                                let ghost before = out@;
                                out.push(d);
                                proof {
                                    assert(deps_view(out@) =~= deps_view(before).push(d@));
                                }
                            },
                            Err(e) => {
                                proof {
                                    lemma_dependencies_error(name@, all, i + 1);
                                }
                                return Err(e);
                            },
                        }
                        i += 1;
                    }
                    proof {
                        assert(all.take(all.len() as int) =~= all);
                    }
                    Ok(out)
                },
                _ => Err(unit_err(name, "': 'depends_on' must be an array")),
            }
        },
    }
}

// ---------------------------------------------------------------------------
// Probes
// ---------------------------------------------------------------------------

/// The keys that a probe's table may have.
pub open spec fn probe_fields() -> Seq<Seq<char>> {
    seq!["exit"@, "tcp"@, "http"@, "exec"@, "interval"@, "timeout"@, "retries"@]
}

/// A message about a field of a unit.
pub open spec fn field_error(name: Seq<char>, field: Seq<char>, rest: Seq<char>) -> Seq<char> {
    unit_error_on(name, "': '"@, field, rest)
}

fn field_err(name: &str, field: &str, rest: &str) -> (r: String)
    ensures
        r@ == field_error(name@, field@, rest@),
{
    unit_err_on(name, "': '", field, rest)
}

/// The `exit` key of a probe's table: no probe, a probe, or an error.
pub open spec fn exit_probe_of(
    name: Seq<char>,
    field: Seq<char>,
    t: Seq<(Seq<char>, Toml)>,
) -> Result<Option<ProbeKindView>, Seq<char>> {
    match toml_value::field(t, "exit"@) {
        None => Ok(None),
        Some(v) => if field == "healthcheck"@ {
            Err(unit_error(name, "': 'exit' probe type is not valid for healthcheck"@))
        } else {
            match v {
                Toml::Integer(i) => Ok(Some(ProbeKindView::Exit(i as i32))),
                _ => Err(field_error(name, field, ".exit' must be an integer"@)),
            }
        },
    }
}

/// The `tcp` key of a probe's table. A number is a port of this machine.
pub open spec fn tcp_probe_of(
    name: Seq<char>,
    field: Seq<char>,
    t: Seq<(Seq<char>, Toml)>,
) -> Result<Option<ProbeKindView>, Seq<char>> {
    match toml_value::field(t, "tcp"@) {
        None => Ok(None),
        Some(Toml::Text(s)) => Ok(Some(ProbeKindView::Tcp(s))),
        Some(Toml::Integer(i)) => Ok(
            Some(ProbeKindView::Tcp("localhost:"@ + text::signed_decimal(i as int))),
        ),
        Some(_) => Err(field_error(name, field, ".tcp' must be a string or integer"@)),
    }
}

/// The `http` key of a probe's table.
pub open spec fn http_probe_of(
    name: Seq<char>,
    field: Seq<char>,
    t: Seq<(Seq<char>, Toml)>,
) -> Result<Option<ProbeKindView>, Seq<char>> {
    match toml_value::field(t, "http"@) {
        None => Ok(None),
        Some(Toml::Text(s)) => Ok(Some(ProbeKindView::Http(s))),
        Some(_) => Err(field_error(name, field, ".http' must be a string"@)),
    }
}

/// The `exec` key of a probe's table.
pub open spec fn exec_probe_of(
    name: Seq<char>,
    field: Seq<char>,
    t: Seq<(Seq<char>, Toml)>,
) -> Result<Option<ProbeKindView>, Seq<char>> {
    match toml_value::field(t, "exec"@) {
        None => Ok(None),
        Some(Toml::Text(s)) => Ok(Some(ProbeKindView::Exec(s))),
        Some(_) => Err(field_error(name, field, ".exec' must be a string"@)),
    }
}

/// How many of the four kinds of probe a table asks for.
pub open spec fn probe_count(
    a: Option<ProbeKindView>,
    b: Option<ProbeKindView>,
    c: Option<ProbeKindView>,
    d: Option<ProbeKindView>,
) -> int {
    (if a is Some {
        1int
    } else {
        0
    }) + (if b is Some {
        1int
    } else {
        0
    }) + (if c is Some {
        1int
    } else {
        0
    }) + (if d is Some {
        1int
    } else {
        0
    })
}

/// What a probe's table asks to test: exactly one of the four kinds.
pub open spec fn probe_kind_of(
    name: Seq<char>,
    field: Seq<char>,
    t: Seq<(Seq<char>, Toml)>,
) -> Result<ProbeKindView, Seq<char>> {
    match (
        exit_probe_of(name, field, t),
        tcp_probe_of(name, field, t),
        http_probe_of(name, field, t),
        exec_probe_of(name, field, t),
    ) {
        (Err(e), _, _, _) => Err(e),
        (Ok(_), Err(e), _, _) => Err(e),
        (Ok(_), Ok(_), Err(e), _) => Err(e),
        (Ok(_), Ok(_), Ok(_), Err(e)) => Err(e),
        (Ok(a), Ok(b), Ok(c), Ok(d)) => if probe_count(a, b, c, d) == 0 {
            Err(field_error(name, field, "' must specify one of: exit, tcp, http, exec"@))
        } else if probe_count(a, b, c, d) > 1 {
            Err(field_error(name, field, "' must specify exactly one of: exit, tcp, http, exec"@))
        } else if a is Some {
            Ok(a->0)
        } else if b is Some {
            Ok(b->0)
        } else if c is Some {
            Ok(c->0)
        } else {
            Ok(d->0)
        },
    }
}

fn parse_probe_kind(name: &str, field: &str, t: &Vec<(String, TomlValue)>) -> (r: Result<
    ProbeKind,
    String,
>)
    ensures
        match r {
            Ok(k) => probe_kind_of(name@, field@, toml_value::entries(t@)) == Ok::<
                ProbeKindView,
                Seq<char>,
            >(k@),
            Err(e) => probe_kind_of(name@, field@, toml_value::entries(t@)) == Err::<
                ProbeKindView,
                Seq<char>,
            >(e@),
        },
{
    let ghost all = toml_value::entries(t@);
    let mut probe: Option<ProbeKind> = None;
    let mut count: u32 = 0;
    match toml_value::get(t, "exit") {
        None => {},
        Some(v) => {
            if text::same(field, "healthcheck") {
                return Err(unit_err(name, "': 'exit' probe type is not valid for healthcheck"));
            }
            match v {
                TomlValue::Integer(i) => {
                    probe = Some(ProbeKind::Exit(*i as i32));
                    count += 1;
                },
                _ => {
                    return Err(field_err(name, field, ".exit' must be an integer"));
                },
            }
        },
    }
    match toml_value::get(t, "tcp") {
        None => {},
        Some(TomlValue::Text(s)) => {
            probe = Some(ProbeKind::Tcp(text::copy(s.as_str())));
            count += 1;
        },
        Some(TomlValue::Integer(i)) => {
            let n = text::signed_decimal_of(*i);
            probe = Some(ProbeKind::Tcp(text::concat2("localhost:", n.as_str())));
            count += 1;
        },
        Some(_) => {
            return Err(field_err(name, field, ".tcp' must be a string or integer"));
        },
    }
    match toml_value::get(t, "http") {
        None => {},
        Some(TomlValue::Text(s)) => {
            probe = Some(ProbeKind::Http(text::copy(s.as_str())));
            count += 1;
        },
        Some(_) => {
            return Err(field_err(name, field, ".http' must be a string"));
        },
    }
    match toml_value::get(t, "exec") {
        None => {},
        Some(TomlValue::Text(s)) => {
            probe = Some(ProbeKind::Exec(text::copy(s.as_str())));
            count += 1;
        },
        Some(_) => {
            return Err(field_err(name, field, ".exec' must be a string"));
        },
    }
    if count > 1 {
        return Err(
            field_err(name, field, "' must specify exactly one of: exit, tcp, http, exec"),
        );
    }
    match probe {
        Some(p) => Ok(p),
        None => Err(field_err(name, field, "' must specify one of: exit, tcp, http, exec")),
    }
}

/// A duration that a probe's table may set.
pub open spec fn timing_of(
    name: Seq<char>,
    field: Seq<char>,
    t: Seq<(Seq<char>, Toml)>,
    key: Seq<char>,
    default: Duration,
) -> Result<Duration, Seq<char>> {
    match toml_value::field(t, key) {
        None => Ok(default),
        Some(Toml::Text(s)) => match duration_of(s) {
            Ok(d) => Ok(d),
            Err(e) => Err(field_error(name, field, "."@ + key + "': "@ + e)),
        },
        Some(_) => Err(field_error(name, field, "."@ + key + "' must be a string"@)),
    }
}

fn parse_timing(
    name: &str,
    field: &str,
    t: &Vec<(String, TomlValue)>,
    key: &str,
    default: Duration,
) -> (r: Result<Duration, String>)
    ensures
        match r {
            Ok(d) => timing_of(name@, field@, toml_value::entries(t@), key@, default) == Ok::<
                Duration,
                Seq<char>,
            >(d),
            Err(e) => timing_of(name@, field@, toml_value::entries(t@), key@, default) == Err::<
                Duration,
                Seq<char>,
            >(e@),
        },
{
    match toml_value::get(t, key) {
        None => Ok(default),
        Some(TomlValue::Text(s)) => match parse_duration(s.as_str()) {
            Ok(d) => Ok(d),
            Err(e) => {
                let mut rest = text::concat3(".", key, "': ");
                text::push_text(&mut rest, e.as_str());
                Err(field_err(name, field, rest.as_str()))
            },
        },
        Some(_) => {
            let rest = text::concat3(".", key, "' must be a string");
            Err(field_err(name, field, rest.as_str()))
        },
    }
}

/// The number of attempts that a probe's table may set.
pub open spec fn retries_of(
    name: Seq<char>,
    field: Seq<char>,
    t: Seq<(Seq<char>, Toml)>,
) -> Result<Option<u32>, Seq<char>> {
    match toml_value::field(t, "retries"@) {
        None => Ok(None),
        Some(Toml::Integer(i)) => Ok(Some(i as u32)),
        Some(_) => Err(field_error(name, field, ".retries' must be an integer"@)),
    }
}

/// The time between attempts where a probe's table sets none.
pub open spec fn default_interval(field: Seq<char>) -> Duration {
    if field == "ready"@ {
        Duration { secs: 1, nanos: 0 }
    } else {
        Duration { secs: 10, nanos: 0 }
    }
}

/// The time limit where a probe's table sets none.
pub open spec fn default_timeout() -> Duration {
    Duration { secs: 30, nanos: 0 }
}

/// The probe that a field of a unit stands for.
pub open spec fn probe_of(name: Seq<char>, field: Seq<char>, v: Toml) -> Result<
    ProbeView,
    Seq<char>,
> {
    match v {
        Toml::Table(t) => match unknown_key(t, probe_fields()) {
            Some(k) => Err(unit_error_on(name, "': unknown field '"@, k, "' in '"@ + field + "'"@)),
            None => match probe_kind_of(name, field, t) {
                Err(e) => Err(e),
                Ok(probe) => match (
                    timing_of(name, field, t, "interval"@, default_interval(field)),
                    timing_of(name, field, t, "timeout"@, default_timeout()),
                    retries_of(name, field, t),
                ) {
                    (Err(e), _, _) => Err(e),
                    (Ok(_), Err(e), _) => Err(e),
                    (Ok(_), Ok(_), Err(e)) => Err(e),
                    (Ok(interval), Ok(timeout), Ok(retries)) => Ok(
                        ProbeView { probe, interval, timeout, retries },
                    ),
                },
            },
        },
        _ => Err(field_error(name, field, "' must be a table"@)),
    }
}

/// Reads the probe in a unit's `ready` or `healthcheck` field.
pub fn parse_probe_config(value: &TomlValue, unit_name: &str, field: &str) -> (r: Result<
    ProbeConfig,
    String,
>)
    ensures
        match r {
            Ok(p) => probe_of(unit_name@, field@, toml_value::model(*value)) == Ok::<
                ProbeView,
                Seq<char>,
            >(p@),
            Err(e) => probe_of(unit_name@, field@, toml_value::model(*value)) == Err::<
                ProbeView,
                Seq<char>,
            >(e@),
        },
{
    proof {
        toml_value::lemma_table(*value);
    }
    match value {
        TomlValue::Table(t) => {
            let known = vec!["exit", "tcp", "http", "exec", "interval", "timeout", "retries"];
            proof {
                assert(words(known@) =~= probe_fields());
            }
            match find_unknown(t, &known) {
                Some(k) => {
                    let rest = text::concat3("' in '", field, "'");
                    return Err(
                        unit_err_on(unit_name, "': unknown field '", k.as_str(), rest.as_str()),
                    );
                },
                None => {},
            }
            let probe = match parse_probe_kind(unit_name, field, t) {
                Ok(p) => p,
                Err(e) => {
                    return Err(e);
                },
            };
            let between = if text::same(field, "ready") {
                Duration::from_secs(1)
            } else {
                Duration::from_secs(10)
            };
            let interval = match parse_timing(unit_name, field, t, "interval", between) {
                Ok(d) => d,
                Err(e) => {
                    return Err(e);
                },
            };
            let timeout = match parse_timing(
                unit_name,
                field,
                t,
                "timeout",
                Duration::from_secs(30),
            ) {
                Ok(d) => d,
                Err(e) => {
                    return Err(e);
                },
            };
            let retries = match toml_value::get(t, "retries") {
                None => None,
                Some(TomlValue::Integer(i)) => Some(*i as u32),
                Some(_) => {
                    return Err(field_err(unit_name, field, ".retries' must be an integer"));
                },
            };
            Ok(ProbeConfig { probe, interval, timeout, retries })
        },
        _ => Err(field_err(unit_name, field, "' must be a table")),
    }
}

/// The probe in a field that a unit's table may have.
pub open spec fn probe_field_of(
    name: Seq<char>,
    t: Seq<(Seq<char>, Toml)>,
    field: Seq<char>,
) -> Result<Option<ProbeView>, Seq<char>> {
    match toml_value::field(t, field) {
        None => Ok(None),
        Some(v) => match probe_of(name, field, v) {
            Ok(p) => Ok(Some(p)),
            Err(e) => Err(e),
        },
    }
}

fn parse_probe_field(name: &str, t: &Vec<(String, TomlValue)>, field: &str) -> (r: Result<
    Option<ProbeConfig>,
    String,
>)
    ensures
        match r {
            Ok(p) => probe_field_of(name@, toml_value::entries(t@), field@) == Ok::<
                Option<ProbeView>,
                Seq<char>,
            >(probe_view(p)),
            Err(e) => probe_field_of(name@, toml_value::entries(t@), field@) == Err::<
                Option<ProbeView>,
                Seq<char>,
            >(e@),
        },
{
    match toml_value::get(t, field) {
        None => Ok(None),
        Some(v) => match parse_probe_config(v, name, field) {
            Ok(p) => Ok(Some(p)),
            Err(e) => Err(e),
        },
    }
}

// ---------------------------------------------------------------------------
// Ports
// ---------------------------------------------------------------------------

/// The port that an item of the list of ports asks for: a name, or a table with a
/// name and the number that is preferred.
pub open spec fn port_of(name: Seq<char>, v: Toml) -> Result<(Seq<char>, Option<u16>), Seq<char>> {
    match v {
        Toml::Text(s) => Ok((s, None)),
        Toml::Table(t) => match (
            unknown_key(t, port_fields()),
            toml_value::as_text(toml_value::field(t, "name"@)),
            toml_value::field(t, "default"@),
        ) {
            (Some(k), _, _) => Err(
                unit_error_on(name, "': unknown field '"@, k, "' in a port"@),
            ),
            (None, None, _) => Err(unit_error(name, "': a port must have a 'name'"@)),
            (None, Some(n), None) => Ok((n, None)),
            (None, Some(n), Some(Toml::Integer(i))) => if 0 <= i <= u16::MAX {
                Ok((n, Some(i as u16)))
            } else {
                Err(unit_error(name, "': the 'default' of a port must be a port number"@))
            },
            (None, Some(n), Some(_)) => Err(
                unit_error(name, "': the 'default' of a port must be a port number"@),
            ),
        },
        _ => Err(unit_error(name, "': a port must be a string or a table"@)),
    }
}

/// The keys that the table of a port may have.
pub open spec fn port_fields() -> Seq<Seq<char>> {
    seq!["name"@, "default"@]
}

/// The ports that a list asks for.
pub open spec fn ports_in(name: Seq<char>, a: Seq<Toml>) -> Result<
    Seq<(Seq<char>, Option<u16>)>,
    Seq<char>,
>
    decreases a.len(),
{
    if a.len() == 0 {
        Ok(Seq::empty())
    } else {
        match ports_in(name, a.drop_last()) {
            Err(e) => Err(e),
            Ok(s) => match port_of(name, a.last()) {
                Err(e) => Err(e),
                Ok(p) => Ok(s.push(p)),
            },
        }
    }
}

/// The ports that a unit asks for.
pub open spec fn ports_of(name: Seq<char>, t: Seq<(Seq<char>, Toml)>) -> Result<
    Seq<(Seq<char>, Option<u16>)>,
    Seq<char>,
> {
    match toml_value::field(t, "ports"@) {
        None => Ok(Seq::empty()),
        Some(Toml::Array(a)) => ports_in(name, a),
        Some(_) => Err(unit_error(name, "': 'ports' must be an array"@)),
    }
}

fn parse_port(name: &str, v: &TomlValue) -> (r: Result<PortDefArg, String>)
    ensures
        match r {
            Ok(p) => port_of(name@, toml_value::model(*v)) == Ok::<
                (Seq<char>, Option<u16>),
                Seq<char>,
            >((p.name@, p.default)),
            Err(e) => port_of(name@, toml_value::model(*v)) == Err::<
                (Seq<char>, Option<u16>),
                Seq<char>,
            >(e@),
        },
{
    proof {
        toml_value::lemma_table(*v);
    }
    match v {
        TomlValue::Text(s) => Ok(PortDefArg { name: text::copy(s.as_str()), default: None }),
        TomlValue::Table(t) => {
            let known = vec!["name", "default"];
            proof {
                assert(words(known@) =~= port_fields());
            }
            match find_unknown(t, &known) {
                Some(k) => {
                    return Err(
                        unit_err_on(name, "': unknown field '", k.as_str(), "' in a port"),
                    );
                },
                None => {},
            }
            let n = match toml_value::get_text(t, "name") {
                Some(n) => text::copy(n.as_str()),
                None => {
                    return Err(unit_err(name, "': a port must have a 'name'"));
                },
            };
            match toml_value::get(t, "default") {
                None => Ok(PortDefArg { name: n, default: None }),
                Some(TomlValue::Integer(i)) => {
                    if 0 <= *i && *i <= u16::MAX as i64 {
                        Ok(PortDefArg { name: n, default: Some(*i as u16) })
                    } else {
                        Err(
                            unit_err(name, "': the 'default' of a port must be a port number"),
                        )
                    }
                },
                Some(x) => {
                    proof {
                        toml_value::lemma_table(*x);
                    }
                    Err(unit_err(name, "': the 'default' of a port must be a port number"))
                },
            }
        },
        _ => Err(unit_err(name, "': a port must be a string or a table")),
    }
}

proof fn lemma_ports_error(name: Seq<char>, a: Seq<Toml>, k: int)
    requires
        0 <= k <= a.len(),
        ports_in(name, a.take(k)) is Err,
    ensures
        ports_in(name, a) == ports_in(name, a.take(k)),
    decreases a.len() - k,
{
    if k < a.len() {
        assert(a.take(k + 1).drop_last() =~= a.take(k));
        lemma_ports_error(name, a, k + 1);
    } else {
        assert(a.take(k) =~= a);
    }
}

fn parse_ports(name: &str, t: &Vec<(String, TomlValue)>) -> (r: Result<Vec<PortDefArg>, String>)
    ensures
        match r {
            Ok(p) => ports_of(name@, toml_value::entries(t@)) == Ok::<
                Seq<(Seq<char>, Option<u16>)>,
                Seq<char>,
            >(api::ports_asked(p@)),
            Err(e) => ports_of(name@, toml_value::entries(t@)) == Err::<
                Seq<(Seq<char>, Option<u16>)>,
                Seq<char>,
            >(e@),
        },
{
    let mut out: Vec<PortDefArg> = Vec::new();
    proof {
        assert(api::ports_asked(out@) =~= Seq::<(Seq<char>, Option<u16>)>::empty());
    }
    let v = match toml_value::get(t, "ports") {
        None => {
            return Ok(out);
        },
        Some(v) => v,
    };
    proof {
        toml_value::lemma_table(*v);
    }
    match v {
        TomlValue::Array(a) => {
            let ghost all = Seq::new(a@.len(), |i: int| toml_value::model(a@[i]));
            let mut i: usize = 0;
            proof {
                assert(all.take(0) =~= Seq::<Toml>::empty());
            }
            while i < a.len()
                invariant
                    i <= a.len(),
                    all == Seq::new(a@.len(), |i: int| toml_value::model(a@[i])),
                    ports_of(name@, toml_value::entries(t@)) == ports_in(name@, all),
                    ports_in(name@, all.take(i as int)) == Ok::<
                        Seq<(Seq<char>, Option<u16>)>,
                        Seq<char>,
                    >(api::ports_asked(out@)),
                decreases a.len() - i,
            {
                proof {
                    assert(all.take(i + 1).drop_last() =~= all.take(i as int));
                    assert(all.take(i + 1).last() == toml_value::model(a@[i as int]));
                }
                let ghost before = out@;
                match parse_port(name, &a[i]) {
                    Ok(p) => {
                        let ghost pv = (p.name@, p.default);
                        out.push(p);
                        proof {
                            assert(api::ports_asked(out@) =~= api::ports_asked(before).push(pv));
                        }
                    },
                    Err(e) => {
                        proof {
                            lemma_ports_error(name@, all, i + 1);
                        }
                        return Err(e);
                    },
                }
                i += 1;
            }
            proof {
                assert(all.take(all.len() as int) =~= all);
            }
            Ok(out)
        },
        _ => Err(unit_err(name, "': 'ports' must be an array")),
    }
}

/// The texts of a table, in order.
pub open spec fn texts_in_table(t: Seq<(Seq<char>, Toml)>) -> Seq<Seq<char>>
    decreases t.len(),
{
    if t.len() == 0 {
        Seq::empty()
    } else {
        match t.last().1 {
            Toml::Text(s) => texts_in_table(t.drop_last()).push(s),
            _ => texts_in_table(t.drop_last()),
        }
    }
}

/// The values of the variables that a unit sets, in order.
pub open spec fn env_texts(t: Seq<(Seq<char>, Toml)>) -> Seq<Seq<char>> {
    match toml_value::field(t, "env"@) {
        Some(Toml::Table(e)) => texts_in_table(e),
        _ => Seq::empty(),
    }
}

/// What a probe tests, as a text.
pub open spec fn probe_texts(p: Option<ProbeView>) -> Seq<Seq<char>> {
    match p {
        Some(c) => match c.probe {
            ProbeKindView::Tcp(a) => seq![a],
            ProbeKindView::Http(u) => seq![u],
            ProbeKindView::Exec(c) => seq![c],
            ProbeKindView::Exit(_) => Seq::empty(),
        },
        None => Seq::empty(),
    }
}

/// The other units that references to ports in some texts name.
pub open spec fn mentioned(s: Seq<Seq<char>>) -> Seq<Seq<char>>
    decreases s.len(),
{
    if s.len() == 0 {
        Seq::empty()
    } else {
        mentioned(s.drop_last()) + ports::units_in(s.last())
    }
}

/// The texts of a unit in which references to ports count: its command, its
/// variables and its probes.
pub open spec fn texts_with_ports(u: UnitView, t: Seq<(Seq<char>, Toml)>) -> Seq<Seq<char>> {
    seq![u.command] + env_texts(t) + probe_texts(u.ready) + probe_texts(u.healthcheck)
}

/// The other units whose ports a unit refers to.
pub open spec fn units_mentioned(u: UnitView, t: Seq<(Seq<char>, Toml)>) -> Seq<Seq<char>> {
    mentioned(texts_with_ports(u, t))
}

/// A unit once all its fields are known, or what they have against each other.
pub open spec fn finished(name: Seq<char>, u: UnitView, refs: Seq<Seq<char>>) -> Result<
    UnitView,
    Seq<char>,
> {
    if u.sub_root && u.interactive {
        Err(unit_error(name, "': 'sub_root' is incompatible with 'interactive'"@))
    } else if u.sub_root && u.ready is Some && u.ready->0.probe is Exit {
        Err(unit_error(name, "': 'sub_root' is incompatible with an 'exit' readiness probe"@))
    } else {
        Ok(UnitView { port_units: refs, ..u })
    }
}

fn add_mentioned(out: &mut Vec<String>, t: &str)
    ensures
        text::texts(final(out)@) == text::texts(old(out)@) + ports::units_in(t@),
{
    let mut more = ports::units_named(t);
    let ghost before = out@;
    let ghost add = more@;
    out.append(&mut more);
    proof {
        assert(text::texts(out@) =~= text::texts(before) + text::texts(add));
    }
}

fn add_probe_mentioned(out: &mut Vec<String>, p: &Option<ProbeConfig>)
    ensures
        text::texts(final(out)@) == text::texts(old(out)@) + mentioned(
            probe_texts(probe_view(*p)),
        ),
{
    let ghost before = text::texts(out@);
    proof {
        reveal_with_fuel(mentioned, 2);
        assert(before + Seq::empty() =~= before);
    }
    match p {
        Some(c) => {
            match &c.probe {
                ProbeKind::Tcp(a) => {
                    add_mentioned(out, a.as_str());
                    proof {
                        assert(seq![a@].drop_last() =~= Seq::<Seq<char>>::empty());
                        assert(Seq::empty() + ports::units_in(a@) =~= ports::units_in(a@));
                    }
                },
                ProbeKind::Http(a) => {
                    add_mentioned(out, a.as_str());
                    proof {
                        assert(seq![a@].drop_last() =~= Seq::<Seq<char>>::empty());
                        assert(Seq::empty() + ports::units_in(a@) =~= ports::units_in(a@));
                    }
                },
                ProbeKind::Exec(a) => {
                    add_mentioned(out, a.as_str());
                    proof {
                        assert(seq![a@].drop_last() =~= Seq::<Seq<char>>::empty());
                        assert(Seq::empty() + ports::units_in(a@) =~= ports::units_in(a@));
                    }
                },
                ProbeKind::Exit(_) => {},
            }
        },
        None => {},
    }
}

proof fn lemma_mentioned_concat(a: Seq<Seq<char>>, b: Seq<Seq<char>>)
    ensures
        mentioned(a + b) == mentioned(a) + mentioned(b),
    decreases b.len(),
{
    if b.len() == 0 {
        assert(a + b =~= a);
        assert(mentioned(a) + Seq::empty() =~= mentioned(a));
    } else {
        assert((a + b).drop_last() =~= a + b.drop_last());
        lemma_mentioned_concat(a, b.drop_last());
        assert(mentioned(a) + mentioned(b.drop_last()) + ports::units_in(b.last())
            =~= mentioned(a) + (mentioned(b.drop_last()) + ports::units_in(b.last())));
    }
}

fn add_env_mentioned(out: &mut Vec<String>, t: &Vec<(String, TomlValue)>)
    ensures
        text::texts(final(out)@) == text::texts(old(out)@) + mentioned(
            env_texts(toml_value::entries(t@)),
        ),
{
    let ghost start = text::texts(out@);
    proof {
        assert(start + Seq::empty() =~= start);
    }
    let v = match toml_value::get(t, "env") {
        Some(v) => v,
        None => {
            return ;
        },
    };
    proof {
        toml_value::lemma_table(*v);
    }
    match v {
        TomlValue::Table(e) => {
            let ghost all = toml_value::entries(e@);
            let mut i: usize = 0;
            proof {
                assert(all.take(0) =~= Seq::<(Seq<char>, Toml)>::empty());
            }
            while i < e.len()
                invariant
                    i <= e.len(),
                    all == toml_value::entries(e@),
                    text::texts(out@) == start + mentioned(texts_in_table(all.take(i as int))),
                decreases e.len() - i,
            {
                let ghost before = texts_in_table(all.take(i as int));
                proof {
                    assert(all.take(i + 1).drop_last() =~= all.take(i as int));
                    assert(all.take(i + 1).last() == (e@[i as int].0@, toml_value::model(
                        e@[i as int].1,
                    )));
                }
                match &e[i].1 {
                    TomlValue::Text(s) => {
                        add_mentioned(out, s.as_str());
                        proof {
                            assert(before.push(s@).drop_last() =~= before);
                            assert(start + (mentioned(before) + ports::units_in(s@))
                                =~= start + mentioned(before) + ports::units_in(s@));
                        }
                    },
                    x => {
                        proof {
                            toml_value::lemma_table(*x);
                        }
                    },
                }
                i += 1;
            }
            proof {
                assert(all.take(all.len() as int) =~= all);
            }
        },
        _ => {},
    }
}

fn list_mentioned(u: &UnitDef, t: &Vec<(String, TomlValue)>) -> (r: Vec<String>)
    ensures
        text::texts(r@) == units_mentioned(u@, toml_value::entries(t@)),
{
    let ghost e = env_texts(toml_value::entries(t@));
    let ghost p = probe_texts(probe_view(u.ready));
    let ghost q = probe_texts(probe_view(u.healthcheck));
    let ghost c = seq![u.command@];
    let mut out: Vec<String> = Vec::new();
    proof {
        assert(text::texts(out@) =~= Seq::<Seq<char>>::empty());
        reveal_with_fuel(mentioned, 2);
        assert(c.drop_last() =~= Seq::<Seq<char>>::empty());
        assert(Seq::empty() + ports::units_in(u.command@) =~= mentioned(c));
    }
    add_mentioned(&mut out, u.command.as_str());
    add_env_mentioned(&mut out, t);
    add_probe_mentioned(&mut out, &u.ready);
    add_probe_mentioned(&mut out, &u.healthcheck);
    proof {
        lemma_mentioned_concat(c, e);
        lemma_mentioned_concat(c + e, p);
        lemma_mentioned_concat(c + e + p, q);
    }
    out
}

fn finish(name: &str, u: UnitDef, refs: Vec<String>) -> (r: Result<UnitDef, String>)
    ensures
        match r {
            Ok(x) => finished(name@, u@, text::texts(refs@)) == Ok::<UnitView, Seq<char>>(x@),
            Err(e) => finished(name@, u@, text::texts(refs@)) == Err::<UnitView, Seq<char>>(e@),
        },
{
    if u.sub_root && u.interactive {
        return Err(unit_err(name, "': 'sub_root' is incompatible with 'interactive'"));
    }
    if u.sub_root {
        if let Some(c) = &u.ready {
            if let ProbeKind::Exit(_) = &c.probe {
                return Err(
                    unit_err(
                        name,
                        "': 'sub_root' is incompatible with an 'exit' readiness probe",
                    ),
                );
            }
        }
    }
    Ok(UnitDef { port_units: refs, ..u })
}

// ---------------------------------------------------------------------------
// Units
// ---------------------------------------------------------------------------

/// The keys that a unit's table may have.
pub open spec fn unit_fields() -> Seq<Seq<char>> {
    seq![
        "command"@,
        "restart"@,
        "env"@,
        "depends_on"@,
        "singleton"@,
        "interactive"@,
        "ports"@,
        "sub_root"@,
        "working_dir"@,
        "ready"@,
        "healthcheck"@,
    ]
}

/// What a unit's table says, field by field.
pub open spec fn unit_fields_of(name: Seq<char>, t: Seq<(Seq<char>, Toml)>, command: Seq<char>) -> Result<
    UnitView,
    Seq<char>,
> {
    match (
        restart_of(name, t),
        env_of(name, t),
        depends_on_of(name, t),
        ports_of(name, t),
        probe_field_of(name, t, "ready"@),
        probe_field_of(name, t, "healthcheck"@),
    ) {
        (Err(e), _, _, _, _, _) => Err(e),
        (_, Err(e), _, _, _, _) => Err(e),
        (_, _, Err(e), _, _, _) => Err(e),
        (_, _, _, Err(e), _, _) => Err(e),
        (_, _, _, _, Err(e), _) => Err(e),
        (_, _, _, _, _, Err(e)) => Err(e),
        (Ok(restart), Ok(env), Ok(depends_on), Ok(ports), Ok(ready), Ok(healthcheck)) => Ok(
            UnitView {
                command,
                restart,
                env,
                depends_on,
                singleton: toml_value::as_flag(toml_value::field(t, "singleton"@)) != Some(false),
                interactive: toml_value::as_flag(toml_value::field(t, "interactive"@)) == Some(
                    true,
                ),
                ports,
                port_units: Seq::empty(),
                sub_root: toml_value::as_flag(toml_value::field(t, "sub_root"@)) == Some(true),
                working_dir: toml_value::as_text(toml_value::field(t, "working_dir"@)),
                ready,
                healthcheck,
            },
        ),
    }
}

/// The unit that an entry of a document stands for.
pub open spec fn unit_of(name: Seq<char>, v: Toml) -> Result<UnitView, Seq<char>> {
    match v {
        Toml::Table(t) => match unknown_key(t, unit_fields()) {
            Some(k) => Err("unknown field '"@ + k + "' in unit '"@ + name + "'"@),
            None => match toml_value::as_text(toml_value::field(t, "command"@)) {
                None => Err(unit_error(name, "': 'command' is required and must be a string"@)),
                Some(command) => match unit_fields_of(name, t, command) {
                    Ok(u) => finished(name, u, units_mentioned(u, t)),
                    Err(e) => Err(e),
                },
            },
        },
        _ => Err(unit_error(name, "' must be a table"@)),
    }
}

/// Reads one unit.
pub fn parse_unit(name: &str, value: &TomlValue) -> (r: Result<UnitDef, String>)
    ensures
        match r {
            Ok(u) => unit_of(name@, toml_value::model(*value)) == Ok::<UnitView, Seq<char>>(u@),
            Err(e) => unit_of(name@, toml_value::model(*value)) == Err::<UnitView, Seq<char>>(e@),
        },
{
    proof {
        toml_value::lemma_table(*value);
    }
    match value {
        TomlValue::Table(t) => {
            let known = vec![
                "command",
                "restart",
                "env",
                "depends_on",
                "singleton",
                "interactive",
                "ports",
                "sub_root",
                "working_dir",
                "ready",
                "healthcheck",
            ];
            proof {
                assert(words(known@) =~= unit_fields());
            }
            match find_unknown(t, &known) {
                Some(k) => {
                    let mut m = text::concat3("unknown field '", k.as_str(), "' in unit '");
                    text::push_text(&mut m, name);
                    text::push_text(&mut m, "'");
                    return Err(m);
                },
                None => {},
            }
            let command = match toml_value::get_text(t, "command") {
                Some(c) => text::copy(c.as_str()),
                None => {
                    return Err(
                        unit_err(name, "': 'command' is required and must be a string"),
                    );
                },
            };
            let restart = match parse_restart(name, t) {
                Ok(p) => p,
                Err(e) => {
                    return Err(e);
                },
            };
            let env = match parse_env(name, t) {
                Ok(m) => m,
                Err(e) => {
                    return Err(e);
                },
            };
            let depends_on = match parse_depends_on(name, t) {
                Ok(d) => d,
                Err(e) => {
                    return Err(e);
                },
            };
            let ports = match parse_ports(name, t) {
                Ok(p) => p,
                Err(e) => {
                    return Err(e);
                },
            };
            let sub_root = match toml_value::get_flag(t, "sub_root") {
                Some(b) => b,
                None => false,
            };
            let singleton = match toml_value::get_flag(t, "singleton") {
                Some(b) => b,
                None => true,
            };
            let interactive = match toml_value::get_flag(t, "interactive") {
                Some(b) => b,
                None => false,
            };
            let working_dir = match toml_value::get_text(t, "working_dir") {
                Some(d) => Some(text::copy(d.as_str())),
                None => None,
            };
            let ready = match parse_probe_field(name, t, "ready") {
                Ok(p) => p,
                Err(e) => {
                    return Err(e);
                },
            };
            let healthcheck = match parse_probe_field(name, t, "healthcheck") {
                Ok(p) => p,
                Err(e) => {
                    return Err(e);
                },
            };
            let u = UnitDef {
                command,
                restart,
                env,
                depends_on,
                singleton,
                interactive,
                ports,
                port_units: Vec::new(),
                sub_root,
                working_dir,
                ready,
                healthcheck,
            };
            proof {
                assert(text::texts(u.port_units@) =~= Seq::<Seq<char>>::empty());
            }
            let refs = list_mentioned(&u, t);
            finish(name, u, refs)
        },
        _ => Err(unit_err(name, "' must be a table")),
    }
}

/// What the units of a Psyfile say.
pub open spec fn units_view(m: Map<Seq<char>, UnitDef>) -> Map<Seq<char>, UnitView> {
    m.map_values(|u: UnitDef| u@)
}

/// The units that the entries of a document stand for, added to those at hand.
pub open spec fn units_of(
    t: Seq<(Seq<char>, Toml)>,
    m: Map<Seq<char>, UnitView>,
) -> Result<Map<Seq<char>, UnitView>, Seq<char>>
    decreases t.len(),
{
    if t.len() == 0 {
        Ok(m)
    } else {
        match unit_of(t[0].0, t[0].1) {
            Ok(u) => units_of(t.skip(1), m.insert(t[0].0, u)),
            Err(e) => Err(e),
        }
    }
}

/// The first of some units that another does not depend on, not even through
/// others. Where the dependencies make no sense, nothing is held against it.
pub open spec fn undeclared(
    units: Map<Seq<char>, UnitView>,
    deps: Seq<Seq<char>>,
    refs: Seq<Seq<char>>,
) -> Option<Seq<char>> {
    match order::visit_all(units, deps, Seq::empty(), Seq::empty()) {
        Ok(o) => first_outside(refs, o),
        Err(_) => None,
    }
}

/// The first of some texts that is not in a list.
pub open spec fn first_outside(s: Seq<Seq<char>>, list: Seq<Seq<char>>) -> Option<Seq<char>>
    decreases s.len(),
{
    if s.len() == 0 {
        None
    } else if list.contains(s[0]) {
        first_outside(s.skip(1), list)
    } else {
        Some(s[0])
    }
}

/// The first unit that refers to a port of one that it does not depend on, as a
/// message.
pub open spec fn stray_reference(units: Map<Seq<char>, UnitView>, names: Seq<Seq<char>>) -> Option<
    Seq<char>,
>
    decreases names.len(),
{
    if names.len() == 0 {
        None
    } else {
        let u = units[names[0]];
        match undeclared(units, order::dep_list(u), u.port_units) {
            Some(x) => Some(
                unit_error_on(
                    names[0],
                    "': a reference to a port of '"@,
                    x,
                    "' requires depends_on"@,
                ),
            ),
            None => stray_reference(units, names.skip(1)),
        }
    }
}

/// The dependencies of a unit, where one whose ports it refers to restarts it.
pub open spec fn implied(deps: Seq<DependencyView>, refs: Seq<Seq<char>>) -> Seq<
    DependencyView,
> {
    deps.map_values(
        |d: DependencyView|
            DependencyView { name: d.name, restart: d.restart || refs.contains(d.name) },
    )
}

/// Some dependencies, and those that are missing for references to ports.
pub open spec fn completed(deps: Seq<DependencyView>, refs: Seq<Seq<char>>) -> Seq<
    DependencyView,
>
    decreases refs.len(),
{
    if refs.len() == 0 {
        deps
    } else {
        let before = completed(deps, refs.drop_last());
        if names_of(before).contains(refs.last()) {
            before
        } else {
            before.push(DependencyView { name: refs.last(), restart: true })
        }
    }
}

/// The names of some dependencies.
pub open spec fn names_of(deps: Seq<DependencyView>) -> Seq<Seq<char>> {
    deps.map_values(|d: DependencyView| d.name)
}

/// A unit that depends on those whose ports it refers to, and restarts with them.
pub open spec fn linked(u: UnitView) -> UnitView {
    UnitView {
        depends_on: completed(implied(u.depends_on, u.port_units), u.port_units),
        ..u
    }
}

/// The names of the entries of a table.
pub open spec fn keys(t: Seq<(Seq<char>, Toml)>) -> Seq<Seq<char>> {
    t.map_values(|e: (Seq<char>, Toml)| e.0)
}

/// The units that a document stands for.
pub open spec fn psyfile_of(v: Toml) -> Result<Map<Seq<char>, UnitView>, Seq<char>> {
    match v {
        Toml::Table(t) => match units_of(t, Map::empty()) {
            Ok(m) => match stray_reference(m, keys(t)) {
                Some(e) => Err(e),
                None => Ok(m.map_values(|u: UnitView| linked(u))),
            },
            Err(e) => Err(e),
        },
        _ => Err("a Psyfile must be a table"@),
    }
}

/// The units in a text on an operating system, or what is wrong with it.
pub open spec fn psyfile_text_on(content: Seq<char>, os: Option<Seq<char>>) -> Result<
    Map<Seq<char>, UnitView>,
    Seq<char>,
> {
    match toml_value::document(content) {
        Ok(v) => match platforms::document_on(v, os) {
            Ok(d) => psyfile_of(d),
            Err(e) => Err(e),
        },
        Err(e) => Err("invalid TOML: "@ + e),
    }
}

proof fn lemma_units_keys(
    t: Seq<(Seq<char>, Toml)>,
    m: Map<Seq<char>, UnitView>,
    name: Seq<char>,
)
    requires
        units_of(t, m) is Ok,
    ensures
        units_of(t, m)->Ok_0.dom().contains(name) <==> m.dom().contains(name)
            || toml_value::field(t, name) is Some,
    decreases t.len(),
{
    if t.len() > 0 {
        lemma_units_keys(t.skip(1), m.insert(t[0].0, unit_of(t[0].0, t[0].1)->Ok_0), name);
    }
}

/// A Psyfile has exactly the units that are there on the operating system: one that is
/// restricted to others is not seen at all.
pub proof fn lemma_visible_units(
    content: Seq<char>,
    os: Seq<char>,
    t: Seq<(Seq<char>, Toml)>,
    name: Seq<char>,
)
    requires
        toml_value::document(content) == Ok::<Toml, Seq<char>>(Toml::Table(t)),
        psyfile_text_on(content, Some(os)) is Ok,
    ensures
        psyfile_text_on(content, Some(os))->Ok_0.dom().contains(name) <==> exists|i: int|
            0 <= i < t.len() && (#[trigger] t[i]).0 == name && platforms::present(t[i], os),
{
    let u = platforms::units_on(t, Some(os))->Ok_0;
    platforms::lemma_units_on(t, os, name);
    lemma_units_keys(u, Map::empty(), name);
}

/// The units in a text, whatever the operating system, or what is wrong with it.
pub open spec fn psyfile_text_of(content: Seq<char>) -> Result<
    Map<Seq<char>, UnitView>,
    Seq<char>,
> {
    psyfile_text_on(content, None)
}

fn find_outside(s: &Vec<String>, list: &Vec<String>) -> (r: Option<String>)
    ensures
        text::opt_text(r) == first_outside(text::texts(s@), text::texts(list@)),
{
    let ghost all = text::texts(s@);
    let ghost l = text::texts(list@);
    let mut i: usize = 0;
    proof {
        assert(all.skip(0) =~= all);
    }
    while i < s.len()
        invariant
            i <= s.len(),
            all == text::texts(s@),
            l == text::texts(list@),
            first_outside(all, l) == first_outside(all.skip(i as int), l),
        decreases s.len() - i,
    {
        proof {
            assert(all.skip(i as int)[0] == s@[i as int]@);
            assert(all.skip(i as int).skip(1) =~= all.skip(i + 1));
        }
        if !one_of(s[i].as_str(), list) {
            return Some(text::copy(s[i].as_str()));
        }
        i += 1;
    }
    None
}

fn find_stray(p: &Psyfile, t: &Vec<(String, TomlValue)>) -> (r: Option<String>)
    requires
        forall|i: int| 0 <= i < t@.len() ==> p.units@.dom().contains((#[trigger] t@[i]).0@),
    ensures
        text::opt_text(r) == stray_reference(
            units_view(p.units@),
            keys(toml_value::entries(t@)),
        ),
{
    let ghost m = units_view(p.units@);
    let ghost names = keys(toml_value::entries(t@));
    let mut i: usize = 0;
    proof {
        assert(names.skip(0) =~= names);
    }
    while i < t.len()
        invariant
            i <= t.len(),
            m == units_view(p.units@),
            names == keys(toml_value::entries(t@)),
            forall|i: int| 0 <= i < t@.len() ==> p.units@.dom().contains((#[trigger] t@[i]).0@),
            stray_reference(m, names) == stray_reference(m, names.skip(i as int)),
        decreases t.len() - i,
    {
        proof {
            assert(names.skip(i as int)[0] == t@[i as int].0@);
            assert(names.skip(i as int).skip(1) =~= names.skip(i + 1));
        }
        let name = t[i].0.as_str();
        match p.units.get(name) {
            Some(u) => {
                let deps = u.dep_names();
                match order::resolve_start_order(p, &deps) {
                    Ok(o) => match find_outside(&u.port_units, &o) {
                        Some(x) => {
                            return Some(
                                unit_err_on(
                                    name,
                                    "': a reference to a port of '",
                                    x.as_str(),
                                    "' requires depends_on",
                                ),
                            );
                        },
                        None => {},
                    },
                    Err(_) => {},
                }
            },
            None => {},
        }
        i += 1;
    }
    None
}

fn depends(deps: &Vec<Dependency>, name: &str) -> (r: bool)
    ensures
        r == names_of(deps_view(deps@)).contains(name@),
{
    let ghost names = names_of(deps_view(deps@));
    let mut i: usize = 0;
    while i < deps.len()
        invariant
            i <= deps.len(),
            names == names_of(deps_view(deps@)),
            forall|j: int| 0 <= j < i ==> (#[trigger] deps@[j]).name@ != name@,
        decreases deps.len() - i,
    {
        if text::same(deps[i].name.as_str(), name) {
            proof {
                assert(names[i as int] == name@);
            }
            return true;
        }
        i += 1;
    }
    proof {
        assert forall|j: int| 0 <= j < names.len() implies names[j] != name@ by {
            assert(names[j] == deps@[j].name@);
        }
    }
    false
}

fn imply_restarts(deps: &Vec<Dependency>, refs: &Vec<String>) -> (r: Vec<Dependency>)
    ensures
        deps_view(r@) == implied(deps_view(deps@), text::texts(refs@)),
{
    let mut out: Vec<Dependency> = Vec::new();
    let mut i: usize = 0;
    while i < deps.len()
        invariant
            i <= deps.len(),
            out@.len() == i,
            forall|j: int|
                0 <= j < i ==> (#[trigger] out@[j]).name@ == deps@[j].name@ && out@[j].restart == (
                deps@[j].restart || text::texts(refs@).contains(deps@[j].name@)),
        decreases deps.len() - i,
    {
        let d = &deps[i];
        let restart = d.restart || one_of(d.name.as_str(), refs);
        out.push(Dependency { name: text::copy(d.name.as_str()), restart });
        i += 1;
    }
    proof {
        assert(deps_view(out@) =~= implied(deps_view(deps@), text::texts(refs@)));
    }
    out
}

fn link(u: UnitDef) -> (r: UnitDef)
    ensures
        r@ == linked(u@),
{
    let ghost before = u@;
    let mut deps = imply_restarts(&u.depends_on, &u.port_units);
    let ghost base = deps_view(deps@);
    let ghost refs = text::texts(u.port_units@);
    let mut i: usize = 0;
    while i < u.port_units.len()
        invariant
            i <= u.port_units.len(),
            refs == text::texts(u.port_units@),
            deps_view(deps@) == completed(base, refs.take(i as int)),
        decreases u.port_units.len() - i,
    {
        proof {
            assert(refs.take(i + 1).drop_last() =~= refs.take(i as int));
            assert(refs.take(i + 1).last() == u.port_units@[i as int]@);
        }
        let name = u.port_units[i].as_str();
        if !depends(&deps, name) {
            let ghost was = deps@;
            let d = Dependency { name: text::copy(name), restart: true };
            let ghost dv = d@;
            deps.push(d);
            proof {
                assert(deps_view(deps@) =~= deps_view(was).push(dv));
            }
        }
        i += 1;
    }
    proof {
        assert(refs.take(refs.len() as int) =~= refs);
    }
    let r = UnitDef { depends_on: deps, ..u };
    proof {
        assert(r@ =~= linked(before));
    }
    r
}

fn link_all(units: NameMap<UnitDef>) -> (r: NameMap<UnitDef>)
    ensures
        units_view(r@) == units_view(units@).map_values(|u: UnitView| linked(u)),
{
    let ghost all = units@;
    let mut left = units;
    let mut out: NameMap<UnitDef> = NameMap::new();
    proof {
        left.lemma_names();
    }
    let mut n = left.len();
    while n > 0
        invariant
            n == left.names().len(),
            forall|k: Seq<char>| #[trigger] left@.dom().contains(k) <==> left.names().contains(k),
            forall|k: Seq<char>| #[trigger] all.dom().contains(k) ==> (left@.dom().contains(k)
                || out@.dom().contains(k)),
            forall|k: Seq<char>| #[trigger] left@.dom().contains(k) ==> all.dom().contains(k)
                && left@[k] == all[k],
            forall|k: Seq<char>| #[trigger] out@.dom().contains(k) ==> all.dom().contains(k)
                && out@[k]@ == linked(all[k]@),
        decreases n,
    {
        let (k, u) = left.take_at(0);
        let l = link(u);
        out.insert(k, l);
        n -= 1;
        proof {
            left.lemma_names();
        }
    }
    proof {
        assert(units_view(out@) =~= units_view(all).map_values(|u: UnitView| linked(u)));
    }
    out
}

/// Reads the units of a parsed document.
pub fn parse_document(value: &TomlValue) -> (r: Result<Psyfile, String>)
    ensures
        match r {
            Ok(p) => psyfile_of(toml_value::model(*value)) == Ok::<
                Map<Seq<char>, UnitView>,
                Seq<char>,
            >(units_view(p.units@)),
            Err(e) => psyfile_of(toml_value::model(*value)) == Err::<
                Map<Seq<char>, UnitView>,
                Seq<char>,
            >(e@),
        },
{
    proof {
        toml_value::lemma_table(*value);
    }
    match value {
        TomlValue::Table(t) => {
            let mut units: NameMap<UnitDef> = NameMap::new();
            let ghost all = toml_value::entries(t@);
            let ghost none = Map::<Seq<char>, UnitView>::empty();
            let mut i: usize = 0;
            proof {
                assert(all.skip(0) =~= all);
                assert(units_view(units@) =~= none);
            }
            while i < t.len()
                invariant
                    i <= t.len(),
                    all == toml_value::entries(t@),
                    all == toml_value::model(*value)->Table_0,
                    toml_value::model(*value) is Table,
                    none == Map::<Seq<char>, UnitView>::empty(),
                    units_of(all.skip(i as int), units_view(units@)) == units_of(all, none),
                    forall|j: int|
                        0 <= j < i ==> units@.dom().contains((#[trigger] t@[j]).0@),
                decreases t.len() - i,
            {
                proof {
                    assert(all.skip(i as int)[0] == all[i as int]);
                    assert(all.skip(i as int).skip(1) =~= all.skip(i + 1));
                }
                match parse_unit(t[i].0.as_str(), &t[i].1) {
                    Ok(u) => {
                        let ghost before = units@;
                        let k = text::copy(t[i].0.as_str());
                        units.insert(k, u);
                        proof {
                            assert(units_view(units@) =~= units_view(before).insert(k@, u@));
                        }
                    },
                    Err(e) => {
                        return Err(e);
                    },
                }
                i += 1;
            }
            let p = Psyfile { units };
            match find_stray(&p, t) {
                Some(e) => Err(e),
                None => Ok(Psyfile { units: link_all(p.units) }),
            }
        },
        _ => Err(text::copy("a Psyfile must be a table")),
    }
}

/// Reads a Psyfile as it is on an operating system.
pub fn parse_str_on(content: &str, os: &Option<String>) -> (r: Result<Psyfile, String>)
    ensures
        match r {
            Ok(p) => psyfile_text_on(content@, text::opt_text(*os)) == Ok::<
                Map<Seq<char>, UnitView>,
                Seq<char>,
            >(units_view(p.units@)),
            Err(e) => psyfile_text_on(content@, text::opt_text(*os)) == Err::<
                Map<Seq<char>, UnitView>,
                Seq<char>,
            >(e@),
        },
{
    match toml_value::read(content) {
        Ok(v) => match platforms::resolve(v, os) {
            Ok(d) => parse_document(&d),
            Err(e) => Err(e),
        },
        Err(e) => Err(text::concat2("invalid TOML: ", e.as_str())),
    }
}

/// Reads a Psyfile, whatever the operating system.
pub fn parse_str(content: &str) -> (r: Result<Psyfile, String>)
    ensures
        match r {
            Ok(p) => psyfile_text_of(content@) == Ok::<Map<Seq<char>, UnitView>, Seq<char>>(
                units_view(p.units@),
            ),
            Err(e) => psyfile_text_of(content@) == Err::<Map<Seq<char>, UnitView>, Seq<char>>(e@),
        },
{
    parse_str_on(content, &None)
}

/// A reference to a port of another unit makes a unit depend on that one and
/// restart with it.
pub proof fn lemma_port_reference(u: UnitView, i: int)
    requires
        0 <= i < u.port_units.len(),
    ensures
        exists|j: int|
            0 <= j < linked(u).depends_on.len() && (#[trigger] linked(u).depends_on[j]).name
                == u.port_units[i] && linked(u).depends_on[j].restart,
{
    let refs = u.port_units;
    lemma_completed(implied(u.depends_on, refs), refs, refs, i);
    assert(refs.take(refs.len() as int) =~= refs);
    let d = linked(u).depends_on;
    let j = choose|j: int| 0 <= j < d.len() && (#[trigger] d[j]).name == refs[i] && d[j].restart;
    assert(d[j].restart);
}

proof fn lemma_completed(
    deps: Seq<DependencyView>,
    refs: Seq<Seq<char>>,
    all: Seq<Seq<char>>,
    i: int,
)
    requires
        0 <= i < refs.len(),
        forall|k: int| 0 <= k < refs.len() ==> all.contains(#[trigger] refs[k]),
        forall|k: int|
            0 <= k < deps.len() && all.contains((#[trigger] deps[k]).name) ==> deps[k].restart,
    ensures
        exists|j: int|
            0 <= j < completed(deps, refs).len() && (#[trigger] completed(deps, refs)[j]).name
                == refs[i] && completed(deps, refs)[j].restart,
        forall|k: int|
            0 <= k < completed(deps, refs).len() && all.contains(
                (#[trigger] completed(deps, refs)[k]).name,
            ) ==> completed(deps, refs)[k].restart,
    decreases refs.len(),
{
    let shorter = refs.drop_last();
    let before = completed(deps, shorter);
    let after = completed(deps, refs);
    if shorter.len() > 0 {
        let k = if i < shorter.len() {
            i
        } else {
            0
        };
        assert forall|k: int| 0 <= k < shorter.len() implies all.contains(
            #[trigger] shorter[k],
        ) by {
            assert(shorter[k] == refs[k]);
        }
        lemma_completed(deps, shorter, all, k);
    } else {
        assert(before == deps);
    }
    assert(all.contains(refs.last()));
    if i < shorter.len() {
        let j = choose|j: int|
            0 <= j < before.len() && (#[trigger] before[j]).name == shorter[i]
                && before[j].restart;
        assert(after[j] == before[j]);
    } else if names_of(before).contains(refs.last()) {
        let j = names_of(before).index_of(refs.last());
        assert(names_of(before)[j] == before[j].name);
        assert(after[j].restart);
    } else {
        assert(after[before.len() as int].restart);
    }
}

impl UnitDef {
    /// The names of the units that this one depends on, in order.
    pub fn dep_names(&self) -> (r: Vec<String>)
        ensures
            text::texts(r@) == self@.depends_on.map_values(|d: DependencyView| d.name),
    {
        let mut out: Vec<String> = Vec::new();
        let mut i: usize = 0;
        while i < self.depends_on.len()
            invariant
                i <= self.depends_on.len(),
                out@.len() == i,
                forall|j: int|
                    0 <= j < i ==> (#[trigger] out@[j])@ == self.depends_on@[j].name@,
            decreases self.depends_on.len() - i,
        {
            out.push(text::copy(self.depends_on[i].name.as_str()));
            i += 1;
        }
        proof {
            assert(text::texts(out@) =~= self@.depends_on.map_values(
                |d: DependencyView| d.name,
            ));
        }
        out
    }
}

// ---------------------------------------------------------------------------
// Finding and loading
// ---------------------------------------------------------------------------

/// The files that units are looked for in: in a directory, then in those above it.
pub open spec fn places(system: System, dir: Seq<char>) -> Seq<Seq<char>>
    decreases dir.len(),
    via places_decreases
{
    let here = seq![
        paths::file_in(system, dir, "Psyfile"@),
        paths::file_in(system, dir, "Psyfile.toml"@),
    ];
    match paths::parent_dir(system, dir) {
        Some(up) => here + places(system, up),
        None => here,
    }
}

#[via_fn]
proof fn places_decreases(system: System, dir: Seq<char>) {
    paths::lemma_parent_is_shorter(system, dir);
}

/// The first of some files that is there.
pub open spec fn first_there(candidates: Seq<Seq<char>>, there: Seq<Seq<char>>) -> Option<
    Seq<char>,
>
    decreases candidates.len(),
{
    if candidates.len() == 0 {
        None
    } else if there.contains(candidates[0]) {
        Some(candidates[0])
    } else {
        first_there(candidates.skip(1), there)
    }
}

/// Lists the files that units are looked for in on a system.
pub fn candidates_on(system: System, from: &str) -> (r: Vec<String>)
    ensures
        text::texts(r@) == places(system, from@),
{
    let mut out: Vec<String> = Vec::new();
    let mut dir = text::chars_of(from);
    let mut more = true;
    proof {
        assert(text::texts(out@) + places(system, dir@) =~= places(system, from@));
    }
    while more
        invariant
            places(system, from@) == text::texts(out@) + if more {
                places(system, dir@)
            } else {
                Seq::empty()
            },
        decreases dir.len() + if more {
            1int
        } else {
            0
        },
    {
        let d = text::string_of(&dir);
        let ghost before = out@;
        out.push(paths::join_file(system, d.as_str(), "Psyfile"));
        out.push(paths::join_file(system, d.as_str(), "Psyfile.toml"));
        let ghost here = seq![
            paths::file_in(system, dir@, "Psyfile"@),
            paths::file_in(system, dir@, "Psyfile.toml"@),
        ];
        proof {
            assert(text::texts(out@) =~= text::texts(before) + here);
            paths::lemma_parent_is_shorter(system, dir@);
        }
        match paths::parent(system, &dir) {
            Some(up) => {
                proof {
                    assert(text::texts(before) + (here + places(system, up@)) =~= text::texts(out@)
                        + places(system, up@));
                }
                dir = up;
            },
            None => {
                proof {
                    assert(text::texts(before) + here =~= text::texts(out@) + Seq::empty());
                }
                more = false;
            },
        }
    }
    proof {
        assert(text::texts(out@) + Seq::empty() =~= text::texts(out@));
    }
    out
}

/// Finds the Psyfile of a directory on a system among the files that are there: the
/// nearest one upward from it.
pub fn discover_on(system: System, from: &str, there: &Vec<String>) -> (r: Option<String>)
    ensures
        text::opt_text(r) == first_there(places(system, from@), text::texts(there@)),
{
    let all = candidates_on(system, from);
    let ghost list = text::texts(all@);
    let mut i: usize = 0;
    proof {
        assert(list.skip(0) =~= list);
    }
    while i < all.len()
        invariant
            i <= all.len(),
            list == text::texts(all@),
            list == places(system, from@),
            first_there(list, text::texts(there@)) == first_there(
                list.skip(i as int),
                text::texts(there@),
            ),
        decreases all.len() - i,
    {
        proof {
            assert(list.skip(i as int)[0] == all@[i as int]@);
            assert(list.skip(i as int).skip(1) =~= list.skip(i + 1));
        }
        if one_of(all[i].as_str(), there) {
            return Some(text::copy(all[i].as_str()));
        }
        i += 1;
    }
    None
}

/// Lists the files that units are looked for in, where paths are parted by `/`.
pub fn candidates(from: &str) -> (r: Vec<String>)
    ensures
        text::texts(r@) == places(System::Unix, from@),
{
    candidates_on(System::Unix, from)
}

/// Finds the Psyfile of a directory among the files that are there, where paths are
/// parted by `/`.
pub fn discover(from: &str, there: &Vec<String>) -> (r: Option<String>)
    ensures
        text::opt_text(r) == first_there(places(System::Unix, from@), text::texts(there@)),
{
    discover_on(System::Unix, from, there)
}

fn one_of(word: &str, list: &Vec<String>) -> (r: bool)
    ensures
        r == text::texts(list@).contains(word@),
{
    let mut i: usize = 0;
    while i < list.len()
        invariant
            i <= list.len(),
            forall|j: int| 0 <= j < i ==> (#[trigger] list@[j])@ != word@,
        decreases list.len() - i,
    {
        if text::same(list[i].as_str(), word) {
            proof {
                assert(text::texts(list@)[i as int] == word@);
            }
            return true;
        }
        i += 1;
    }
    proof {
        assert forall|j: int| 0 <= j < text::texts(list@).len() implies text::texts(list@)[j]
            != word@ by {
            assert(text::texts(list@)[j] == list@[j]@);
        }
    }
    false
}

/// A Psyfile that is found is there, and lies in the directory or above it.
pub proof fn lemma_found(candidates: Seq<Seq<char>>, there: Seq<Seq<char>>)
    ensures
        match first_there(candidates, there) {
            Some(f) => candidates.contains(f) && there.contains(f),
            None => forall|f: Seq<char>| #[trigger]
                candidates.contains(f) ==> !there.contains(f),
        },
    decreases candidates.len(),
{
    if candidates.len() > 0 {
        let rest = candidates.skip(1);
        lemma_found(rest, there);
        assert(candidates[0] == candidates.first());
        assert forall|f: Seq<char>| #[trigger] candidates.contains(f) implies f == candidates[0]
            || rest.contains(f) by {
            let i = choose|i: int| 0 <= i < candidates.len() && candidates[i] == f;
            if i > 0 {
                assert(rest[i - 1] == f);
            }
        }
        assert forall|f: Seq<char>| #[trigger] rest.contains(f) implies candidates.contains(f) by {
            let i = choose|i: int| 0 <= i < rest.len() && rest[i] == f;
            assert(candidates[i + 1] == f);
        }
    }
}

/// The message where a Psyfile that was asked for is not there.
pub fn missing(path: &str) -> (r: String)
    ensures
        r@ == "Psyfile not found: "@ + path@,
{
    text::concat2("Psyfile not found: ", path)
}

/// Reads a Psyfile, given its path and what reading the file gave.
pub fn parse(path: &str, content: &Result<String, String>, os: &Option<String>) -> (r: Result<
    Psyfile,
    String,
>)
    ensures
        match content {
            Err(e) => r matches Err(m) && m@ == "cannot read "@ + path@ + ": "@ + e@,
            Ok(c) => match r {
                Ok(p) => psyfile_text_on(c@, text::opt_text(*os)) == Ok::<
                    Map<Seq<char>, UnitView>,
                    Seq<char>,
                >(units_view(p.units@)),
                Err(e) => psyfile_text_on(c@, text::opt_text(*os)) == Err::<
                    Map<Seq<char>, UnitView>,
                    Seq<char>,
                >(e@),
            },
        },
{
    match content {
        Err(e) => {
            let mut m = text::concat3("cannot read ", path, ": ");
            text::push_text(&mut m, e.as_str());
            Err(m)
        },
        Ok(c) => parse_str_on(c.as_str(), os),
    }
}

/// Whether a list names just the units of a Psyfile.
pub open spec fn lists(names: Seq<Seq<char>>, units: Map<Seq<char>, UnitView>) -> bool {
    forall|k: Seq<char>| #[trigger] units.dom().contains(k) <==> names.contains(k)
}

/// Reads and checks a Psyfile, given its path and what reading the file gave.
pub fn load(path: &str, content: &Result<String, String>, os: &Option<String>) -> (r: Result<
    Psyfile,
    String,
>)
    ensures
        match content {
            Err(e) => r matches Err(m) && m@ == "cannot read "@ + path@ + ": "@ + e@,
            Ok(c) => match psyfile_text_on(c@, text::opt_text(*os)) {
                Err(m) => r matches Err(e) && e@ == m,
                Ok(units) => match r {
                    Ok(p) => units_view(p.units@) == units && order::usable(units),
                    Err(e) => !order::usable(units) && exists|names: Seq<Seq<char>>| #[trigger]
                        lists(names, units) && order::validation_error(units, names) == Some(e@),
                },
            },
        },
{
    let p = match parse(path, content, os) {
        Ok(p) => p,
        Err(e) => {
            return Err(e);
        },
    };
    let ghost units = units_view(p.units@);
    let ghost names = p.units.names();
    proof {
        p.units.lemma_names();
        assert(lists(names, units)) by {
            assert forall|k: Seq<char>| #[trigger] units.dom().contains(k) <==> names.contains(
                k,
            ) by {}
        }
        order::lemma_validation(units, names);
    }
    match order::validate(&p) {
        Ok(_) => Ok(p),
        Err(e) => Err(e),
    }
}

// ---------------------------------------------------------------------------
// Probes in requests
// ---------------------------------------------------------------------------

/// The message for a probe in a request that cannot be used.
pub open spec fn bad_probe(field: Seq<char>, what: Seq<char>) -> Seq<char> {
    "invalid or missing run args: "@ + field + what
}

fn bad_probe_text(field: &str, what: &str) -> (r: String)
    ensures
        r@ == bad_probe(field@, what@),
{
    text::concat3("invalid or missing run args: ", field, what)
}

/// A time that a probe in a request gives, or the usual one.
pub open spec fn time_sent(
    field: Seq<char>,
    key: Seq<char>,
    given: Option<Seq<char>>,
    usual: Duration,
) -> Result<Duration, Seq<char>> {
    match given {
        None => Ok(usual),
        Some(s) => match duration_of(s) {
            Ok(d) => Ok(d),
            Err(e) => Err(bad_probe(field, key + e)),
        },
    }
}

/// What a probe in a request tests. A number is a port of this machine, and a
/// health check does not wait for an exit.
pub open spec fn kind_sent(field: Seq<char>, k: ProbeKindView) -> Result<
    ProbeKindView,
    Seq<char>,
> {
    match k {
        ProbeKindView::Tcp(a) => if text::unsigned(a, u16::MAX as nat) is Some {
            Ok(ProbeKindView::Tcp("localhost:"@ + a))
        } else {
            Ok(k)
        },
        ProbeKindView::Exit(_) => if field == "healthcheck"@ {
            Err(bad_probe(field, ": 'exit' probe type is not valid for healthcheck"@))
        } else {
            Ok(k)
        },
        _ => Ok(k),
    }
}

/// The probe that a request asks for.
pub open spec fn probe_sent(field: Seq<char>, a: ProbeArgView) -> Result<ProbeView, Seq<char>> {
    match (
        kind_sent(field, a.kind),
        time_sent(field, ".interval: "@, a.interval, default_interval(field)),
        time_sent(field, ".timeout: "@, a.timeout, default_timeout()),
    ) {
        (Err(e), _, _) => Err(e),
        (_, Err(e), _) => Err(e),
        (_, _, Err(e)) => Err(e),
        (Ok(probe), Ok(interval), Ok(timeout)) => Ok(
            ProbeView { probe, interval, timeout, retries: a.retries },
        ),
    }
}

fn read_time(field: &str, key: &str, given: &Option<String>, usual: Duration) -> (r: Result<
    Duration,
    String,
>)
    ensures
        match r {
            Ok(d) => time_sent(field@, key@, text::opt_text(*given), usual) == Ok::<
                Duration,
                Seq<char>,
            >(d),
            Err(e) => time_sent(field@, key@, text::opt_text(*given), usual) == Err::<
                Duration,
                Seq<char>,
            >(e@),
        },
{
    match given {
        None => Ok(usual),
        Some(s) => match parse_duration(s.as_str()) {
            Ok(d) => Ok(d),
            Err(e) => {
                let what = text::concat2(key, e.as_str());
                Err(bad_probe_text(field, what.as_str()))
            },
        },
    }
}

fn read_kind(field: &str, k: &ProbeKindArg) -> (r: Result<ProbeKind, String>)
    ensures
        match r {
            Ok(p) => kind_sent(field@, k@) == Ok::<ProbeKindView, Seq<char>>(p@),
            Err(e) => kind_sent(field@, k@) == Err::<ProbeKindView, Seq<char>>(e@),
        },
{
    match k {
        ProbeKindArg::Tcp { addr } => {
            if text::parse_u16(&text::chars_of(addr.as_str())).is_some() {
                Ok(ProbeKind::Tcp(text::concat2("localhost:", addr.as_str())))
            } else {
                Ok(ProbeKind::Tcp(text::copy(addr.as_str())))
            }
        },
        ProbeKindArg::Http { url } => Ok(ProbeKind::Http(text::copy(url.as_str()))),
        ProbeKindArg::Exec { command } => Ok(ProbeKind::Exec(text::copy(command.as_str()))),
        ProbeKindArg::Exit { code } => {
            if text::same(field, "healthcheck") {
                Err(
                    bad_probe_text(field, ": 'exit' probe type is not valid for healthcheck"),
                )
            } else {
                Ok(ProbeKind::Exit(*code))
            }
        },
    }
}

/// Reads the probe that a request asks for.
pub fn read_probe(field: &str, a: &ProbeArg) -> (r: Result<ProbeConfig, String>)
    ensures
        match r {
            Ok(p) => probe_sent(field@, a@) == Ok::<ProbeView, Seq<char>>(p@),
            Err(e) => probe_sent(field@, a@) == Err::<ProbeView, Seq<char>>(e@),
        },
{
    let usual = if text::same(field, "ready") {
        Duration::from_secs(1)
    } else {
        Duration::from_secs(10)
    };
    let probe = match read_kind(field, &a.kind) {
        Ok(p) => p,
        Err(e) => {
            return Err(e);
        },
    };
    let interval = match read_time(field, ".interval: ", &a.interval, usual) {
        Ok(d) => d,
        Err(e) => {
            return Err(e);
        },
    };
    let timeout = match read_time(field, ".timeout: ", &a.timeout, Duration::from_secs(30)) {
        Ok(d) => d,
        Err(e) => {
            return Err(e);
        },
    };
    Ok(ProbeConfig { probe, interval, timeout, retries: a.retries })
}

/// The probe that a request asks for, where it asks for one.
pub open spec fn opt_probe_sent(field: Seq<char>, a: Option<ProbeArg>) -> Result<
    Option<ProbeView>,
    Seq<char>,
> {
    match a {
        None => Ok(None),
        Some(x) => match probe_sent(field, x@) {
            Ok(p) => Ok(Some(p)),
            Err(e) => Err(e),
        },
    }
}

/// Reads the probe that a request asks for, where it asks for one.
pub fn read_opt_probe(field: &str, a: &Option<ProbeArg>) -> (r: Result<
    Option<ProbeConfig>,
    String,
>)
    ensures
        match r {
            Ok(p) => opt_probe_sent(field@, *a) == Ok::<Option<ProbeView>, Seq<char>>(
                probe_view(p),
            ),
            Err(e) => opt_probe_sent(field@, *a) == Err::<Option<ProbeView>, Seq<char>>(e@),
        },
{
    match a {
        None => Ok(None),
        Some(x) => match read_probe(field, x) {
            Ok(p) => Ok(Some(p)),
            Err(e) => Err(e),
        },
    }
}

} // verus!
