//! Ports that processes are given: how units refer to them, and how processes
//! learn of them.
use crate::api;
use crate::names::NameMap;
use crate::protocol::PortDefArg;
use crate::psyfile;
use crate::psyfile::{ProbeConfig, ProbeKind, ProbeKindView, ProbeView};
use crate::text;
use vstd::prelude::*;

verus! {

/// What a list of ports that were given says.
pub open spec fn given(s: Seq<(String, u16)>) -> Seq<(Seq<char>, u16)> {
    s.map_values(|p: (String, u16)| (p.0@, p.1))
}

// ---------------------------------------------------------------------------
// References
// ---------------------------------------------------------------------------

/// Whether a reference to a port begins a text.
pub open spec fn begins_ref(s: Seq<char>) -> bool {
    s.len() >= 2 && text::starts_with(s, "${port."@)
}

/// What stands between the braces of a reference that begins a text.
pub open spec fn ref_end(s: Seq<char>) -> nat {
    text::position(s.skip(2), '}')
}

/// The unit that a reference names after an `@`, where it names one.
pub open spec fn unit_in_ref(inner: Seq<char>) -> Option<Seq<char>> {
    let at = text::position(inner, '@') as int;
    if at < inner.len() {
        Some(inner.skip(at + 1))
    } else {
        None
    }
}

/// The other units that the references in a text name, in order.
pub open spec fn units_in(s: Seq<char>) -> Seq<Seq<char>>
    decreases s.len(),
{
    if s.len() == 0 {
        Seq::empty()
    } else if begins_ref(s) && ref_end(s) < s.skip(2).len() {
        let inner = s.skip(2).take(ref_end(s) as int);
        let rest = units_in(s.skip(2).skip(ref_end(s) as int + 1));
        match unit_in_ref(inner) {
            Some(u) => seq![u] + rest,
            None => rest,
        }
    } else {
        units_in(s.skip(1))
    }
}

/// A text with the references to ports that are known replaced by their numbers.
/// Everything else stays as it is.
pub open spec fn put_in(s: Seq<char>, vars: Map<Seq<char>, Seq<char>>) -> Seq<char>
    decreases s.len(),
{
    if s.len() == 0 {
        Seq::empty()
    } else if begins_ref(s) && ref_end(s) < s.skip(2).len() && vars.dom().contains(
        s.skip(2).take(ref_end(s) as int),
    ) {
        vars[s.skip(2).take(ref_end(s) as int)] + put_in(
            s.skip(2).skip(ref_end(s) as int + 1),
            vars,
        )
    } else {
        seq![s[0]] + put_in(s.skip(1), vars)
    }
}

/// Finds a reference that begins at a position: what stands between its braces.
fn ref_at(s: &Vec<char>, mark: &Vec<char>, i: usize) -> (r: Option<usize>)
    requires
        i < s.len(),
        mark@ == "${port."@,
    ensures
        match r {
            Some(end) => {
                &&& i + 2 <= end < s.len()
                &&& begins_ref(s@.skip(i as int))
                &&& ref_end(s@.skip(i as int)) < s@.skip(i as int).skip(2).len()
                &&& ref_end(s@.skip(i as int)) == end - (i + 2)
            },
            None => !(begins_ref(s@.skip(i as int)) && ref_end(s@.skip(i as int)) < s@.skip(
                i as int,
            ).skip(2).len()),
        },
{
    let ghost rest = s@.skip(i as int);
    proof {
        reveal_strlit("${port.");
        if rest.len() >= 7 {
            assert(rest.subrange(0, 7) =~= s@.subrange(i as int, i + 7));
        }
    }
    if !text::matches_at(s, mark, i) {
        return None;
    }
    proof {
        assert(rest.skip(2) =~= s@.skip(i + 2));
    }
    let end = text::find_char_from(s, '}', i + 2);
    if end >= s.len() {
        None
    } else {
        Some(end)
    }
}

/// Lists the other units that the references in a text name.
pub fn units_named(t: &str) -> (r: Vec<String>)
    ensures
        text::texts(r@) == units_in(t@),
{
    let s = text::chars_of(t);
    let mark = text::chars_of("${port.");
    let mut out: Vec<String> = Vec::new();
    let mut i: usize = 0;
    proof {
        assert(s@.skip(0) =~= s@);
        assert(text::texts(out@) + units_in(s@) =~= units_in(s@));
    }
    while i < s.len()
        invariant
            i <= s.len(),
            mark@ == "${port."@,
            text::texts(out@) + units_in(s@.skip(i as int)) == units_in(s@),
        decreases s.len() - i,
    {
        let ghost rest = s@.skip(i as int);
        let ghost before = text::texts(out@);
        match ref_at(&s, &mark, i) {
            Some(end) => {
                let inner = text::part(&s, i + 2, end);
                let at = text::find_char(&inner, '@');
                proof {
                    assert(inner@ =~= rest.skip(2).take(end - (i + 2)));
                    assert(rest.skip(2).skip(end - (i + 2) + 1) =~= s@.skip(end + 1));
                }
                if at < inner.len() {
                    let unit = text::string_of(&text::part(&inner, at + 1, inner.len()));
                    let ghost u = unit@;
                    let ghost was = out@;
                    out.push(unit);
                    proof {
                        assert(u =~= inner@.skip(at + 1));
                        assert(text::texts(out@) =~= text::texts(was).push(u));
                        assert(before + (seq![u] + units_in(s@.skip(end + 1))) =~= text::texts(
                            out@,
                        ) + units_in(s@.skip(end + 1)));
                    }
                }
                i = end + 1;
            },
            None => {
                proof {
                    assert(rest.skip(1) =~= s@.skip(i + 1));
                }
                i += 1;
            },
        }
    }
    proof {
        assert(s@.skip(s@.len() as int) =~= Seq::<char>::empty());
        assert(text::texts(out@) + Seq::empty() =~= text::texts(out@));
    }
    out
}

/// Puts the numbers of ports into a text.
pub fn put_ports(t: &str, vars: &NameMap<String>) -> (r: String)
    ensures
        r@ == put_in(t@, psyfile::env_view(*vars)),
{
    let s = text::chars_of(t);
    let mark = text::chars_of("${port.");
    let ghost v = psyfile::env_view(*vars);
    let mut out = String::new();
    let mut i: usize = 0;
    proof {
        assert(s@.skip(0) =~= s@);
        assert(out@ + put_in(s@, v) =~= put_in(s@, v));
    }
    while i < s.len()
        invariant
            i <= s.len(),
            mark@ == "${port."@,
            v == psyfile::env_view(*vars),
            out@ + put_in(s@.skip(i as int), v) == put_in(s@, v),
        decreases s.len() - i,
    {
        let ghost rest = s@.skip(i as int);
        let ghost before = out@;
        let mut next: usize = i + 1;
        let mut done = false;
        match ref_at(&s, &mark, i) {
            Some(end) => {
                let inner = text::string_of(&text::part(&s, i + 2, end));
                proof {
                    assert(inner@ =~= rest.skip(2).take(end - (i + 2)));
                    assert(rest.skip(2).skip(end - (i + 2) + 1) =~= s@.skip(end + 1));
                }
                match vars.get(inner.as_str()) {
                    Some(x) => {
                        text::push_text(&mut out, x.as_str());
                        proof {
                            let more = put_in(s@.skip(end + 1), v);
                            assert((before + x@) + more =~= before + (x@ + more));
                        }
                        next = end + 1;
                        done = true;
                    },
                    None => {},
                }
            },
            None => {},
        }
        if !done {
            out.push(s[i]);
            proof {
                assert(rest.skip(1) =~= s@.skip(i + 1));
                let more = put_in(s@.skip(i + 1), v);
                assert(before.push(s@[i as int]) + more =~= before + (seq![s@[i as int]] + more));
            }
        }
        i = next;
    }
    proof {
        assert(s@.skip(s@.len() as int) =~= Seq::<char>::empty());
        assert(out@ + Seq::<char>::empty() =~= out@);
    }
    out
}

/// A text without anything known to put in stays as it is.
pub proof fn lemma_put_in_nothing(s: Seq<char>)
    ensures
        put_in(s, Map::empty()) == s,
    decreases s.len(),
{
    if s.len() > 0 {
        lemma_put_in_nothing(s.skip(1));
        assert(seq![s[0]] + s.skip(1) =~= s);
    }
}

// ---------------------------------------------------------------------------
// Probes
// ---------------------------------------------------------------------------

/// Whether a text is a number.
pub open spec fn is_number(s: Seq<char>) -> bool {
    s.len() > 0 && forall|i: int| 0 <= i < s.len() ==> '0' <= #[trigger] s[i] <= '9'
}

/// The address that a probe connects to. A port that is put in alone is one of
/// this machine.
pub open spec fn address_in(a: Seq<char>, vars: Map<Seq<char>, Seq<char>>) -> Seq<char> {
    let x = put_in(a, vars);
    if x != a && is_number(x) {
        "localhost:"@ + x
    } else {
        x
    }
}

/// A probe with the numbers of ports put in.
pub open spec fn probe_in(p: ProbeView, vars: Map<Seq<char>, Seq<char>>) -> ProbeView {
    ProbeView {
        probe: match p.probe {
            ProbeKindView::Tcp(a) => ProbeKindView::Tcp(address_in(a, vars)),
            ProbeKindView::Http(u) => ProbeKindView::Http(put_in(u, vars)),
            ProbeKindView::Exec(c) => ProbeKindView::Exec(put_in(c, vars)),
            ProbeKindView::Exit(c) => ProbeKindView::Exit(c),
        },
        ..p
    }
}

/// An optional probe with the numbers of ports put in.
pub open spec fn opt_probe_in(p: Option<ProbeView>, vars: Map<Seq<char>, Seq<char>>) -> Option<
    ProbeView,
> {
    match p {
        Some(c) => Some(probe_in(c, vars)),
        None => None,
    }
}

fn number(s: &str) -> (r: bool)
    ensures
        r == is_number(s@),
{
    let c = text::chars_of(s);
    let mut i: usize = 0;
    while i < c.len()
        invariant
            i <= c.len(),
            c@ == s@,
            forall|j: int| 0 <= j < i ==> '0' <= #[trigger] s@[j] <= '9',
        decreases c.len() - i,
    {
        if !('0' <= c[i] && c[i] <= '9') {
            return false;
        }
        i += 1;
    }
    c.len() > 0
}

/// Puts the numbers of ports into an optional probe.
pub fn put_in_probe(p: &Option<ProbeConfig>, vars: &NameMap<String>) -> (r: Option<ProbeConfig>)
    ensures
        psyfile::probe_view(r) == opt_probe_in(
            psyfile::probe_view(*p),
            psyfile::env_view(*vars),
        ),
{
    match p {
        None => None,
        Some(c) => {
            let probe = match &c.probe {
                ProbeKind::Tcp(a) => {
                    let x = put_ports(a.as_str(), vars);
                    if !text::same(x.as_str(), a.as_str()) && number(x.as_str()) {
                        ProbeKind::Tcp(text::concat2("localhost:", x.as_str()))
                    } else {
                        ProbeKind::Tcp(x)
                    }
                },
                ProbeKind::Http(u) => ProbeKind::Http(put_ports(u.as_str(), vars)),
                ProbeKind::Exec(x) => ProbeKind::Exec(put_ports(x.as_str(), vars)),
                ProbeKind::Exit(x) => ProbeKind::Exit(*x),
            };
            Some(
                ProbeConfig {
                    probe,
                    interval: c.interval,
                    timeout: c.timeout,
                    retries: c.retries,
                },
            )
        },
    }
}

// ---------------------------------------------------------------------------
// Variables
// ---------------------------------------------------------------------------

/// A letter as a capital, and a hyphen as an underscore.
pub open spec fn capital(c: char) -> char {
    if 'a' <= c <= 'z' {
        ((c as u32) - 32) as char
    } else if c == '-' {
        '_'
    } else {
        c
    }
}

/// The name of a port in capitals.
pub open spec fn capitals(s: Seq<char>) -> Seq<char> {
    s.map_values(|c: char| capital(c))
}

fn to_capitals(s: &str) -> (r: String)
    ensures
        r@ == capitals(s@),
{
    let c = text::chars_of(s);
    let mut out: Vec<char> = Vec::new();
    let mut i: usize = 0;
    while i < c.len()
        invariant
            i <= c.len(),
            c@ == s@,
            out@.len() == i,
            forall|j: int| 0 <= j < i ==> #[trigger] out@[j] == capital(s@[j]),
        decreases c.len() - i,
    {
        let x = c[i];
        let y = if 'a' <= x && x <= 'z' {
            ((x as u8) - 32) as char
        } else if x == '-' {
            '_'
        } else {
            x
        };
        out.push(y);
        i += 1;
    }
    proof {
        assert(out@ =~= capitals(s@));
    }
    text::string_of(&out)
}

/// The variables that tell a process its ports.
pub open spec fn port_env(s: Seq<(Seq<char>, u16)>) -> Map<Seq<char>, Seq<char>>
    decreases s.len(),
{
    if s.len() == 0 {
        Map::empty()
    } else {
        port_env(s.drop_last()).insert(
            "PSY_PORT_"@ + capitals(s.last().0),
            text::decimal(s.last().1 as nat),
        )
    }
}

/// What references to ports stand for. The suffix tells whose they are.
pub open spec fn port_vars(s: Seq<(Seq<char>, u16)>, suffix: Seq<char>) -> Map<
    Seq<char>,
    Seq<char>,
>
    decreases s.len(),
{
    if s.len() == 0 {
        Map::empty()
    } else {
        port_vars(s.drop_last(), suffix).insert(
            "port."@ + s.last().0 + suffix,
            text::decimal(s.last().1 as nat),
        )
    }
}

/// The numbers of some ports, by name.
pub open spec fn by_name(s: Seq<(Seq<char>, u16)>) -> Map<Seq<char>, u16>
    decreases s.len(),
{
    if s.len() == 0 {
        Map::empty()
    } else {
        by_name(s.drop_last()).insert(s.last().0, s.last().1)
    }
}

/// Lists the numbers of some ports by name.
pub fn numbers_by_name(s: &Vec<(String, u16)>) -> (r: NameMap<u16>)
    ensures
        r@ == by_name(given(s@)),
{
    let mut out: NameMap<u16> = NameMap::new();
    let ghost all = given(s@);
    let mut i: usize = 0;
    while i < s.len()
        invariant
            i <= s.len(),
            all == given(s@),
            out@ == by_name(all.take(i as int)),
        decreases s.len() - i,
    {
        proof {
            assert(all.take(i + 1).drop_last() =~= all.take(i as int));
            assert(all.take(i + 1).last() == (s@[i as int].0@, s@[i as int].1));
        }
        out.insert(text::copy(s[i].0.as_str()), s[i].1);
        i += 1;
    }
    proof {
        assert(all.take(all.len() as int) =~= all);
    }
    out
}

/// A copy of some ports.
pub fn copy_ports(s: &Vec<(String, u16)>) -> (r: Vec<(String, u16)>)
    ensures
        given(r@) == given(s@),
{
    let mut out: Vec<(String, u16)> = Vec::new();
    let mut i: usize = 0;
    while i < s.len()
        invariant
            i <= s.len(),
            out@.len() == i,
            forall|j: int|
                0 <= j < i ==> (#[trigger] out@[j]).0@ == s@[j].0@ && out@[j].1 == s@[j].1,
        decreases s.len() - i,
    {
        out.push((text::copy(s[i].0.as_str()), s[i].1));
        i += 1;
    }
    proof {
        assert(given(out@) =~= given(s@));
    }
    out
}

/// Lists the variables that tell a process its ports.
pub fn port_env_of(s: &Vec<(String, u16)>) -> (r: NameMap<String>)
    ensures
        psyfile::env_view(r) == port_env(given(s@)),
{
    let mut out: NameMap<String> = NameMap::new();
    let ghost all = given(s@);
    let mut i: usize = 0;
    proof {
        assert(psyfile::env_view(out) =~= port_env(all.take(0)));
    }
    while i < s.len()
        invariant
            i <= s.len(),
            all == given(s@),
            psyfile::env_view(out) == port_env(all.take(i as int)),
        decreases s.len() - i,
    {
        let ghost before = psyfile::env_view(out);
        let name = to_capitals(s[i].0.as_str());
        let key = text::concat2("PSY_PORT_", name.as_str());
        let value = text::decimal_of(s[i].1 as u128);
        let ghost k = key@;
        let ghost v = value@;
        out.insert(key, value);
        proof {
            assert(all.take(i + 1).drop_last() =~= all.take(i as int));
            assert(all.take(i + 1).last() == (s@[i as int].0@, s@[i as int].1));
            assert(psyfile::env_view(out) =~= before.insert(k, v));
        }
        i += 1;
    }
    proof {
        assert(all.take(all.len() as int) =~= all);
    }
    out
}

/// Adds what references to ports stand for. The suffix tells whose they are.
pub fn add_port_vars(out: &mut NameMap<String>, s: &Vec<(String, u16)>, suffix: &str)
    ensures
        psyfile::env_view(*final(out)) == psyfile::env_view(*old(out)).union_prefer_right(
            port_vars(given(s@), suffix@),
        ),
{
    let ghost base = psyfile::env_view(*out);
    let ghost all = given(s@);
    let mut i: usize = 0;
    proof {
        assert(psyfile::env_view(*out) =~= base.union_prefer_right(
            port_vars(all.take(0), suffix@),
        ));
    }
    while i < s.len()
        invariant
            i <= s.len(),
            all == given(s@),
            psyfile::env_view(*out) == base.union_prefer_right(
                port_vars(all.take(i as int), suffix@),
            ),
        decreases s.len() - i,
    {
        let ghost before = psyfile::env_view(*out);
        let key = text::concat3("port.", s[i].0.as_str(), suffix);
        let value = text::decimal_of(s[i].1 as u128);
        let ghost k = key@;
        let ghost v = value@;
        out.insert(key, value);
        proof {
            assert(all.take(i + 1).drop_last() =~= all.take(i as int));
            assert(all.take(i + 1).last() == (s@[i as int].0@, s@[i as int].1));
            assert(psyfile::env_view(*out) =~= before.insert(k, v));
            assert(before.insert(k, v) =~= base.union_prefer_right(
                port_vars(all.take(i + 1), suffix@),
            ));
        }
        i += 1;
    }
    proof {
        assert(all.take(all.len() as int) =~= all);
    }
}

// ---------------------------------------------------------------------------
// Allocation
// ---------------------------------------------------------------------------

/// The number that a port had in a list, where it has one.
pub open spec fn previous(s: Seq<(Seq<char>, u16)>, name: Seq<char>) -> Option<u16>
    decreases s.len(),
{
    if s.len() == 0 {
        None
    } else if s.last().0 == name {
        Some(s.last().1)
    } else {
        previous(s.drop_last(), name)
    }
}

/// The numbers to try for a port, in order: the one it had, the one that is
/// preferred, and then any that is free, which 0 stands for.
pub open spec fn to_try(had: Option<u16>, preferred: Option<u16>) -> Seq<u16> {
    let first = match had {
        Some(p) => seq![p],
        None => Seq::empty(),
    };
    let second = match preferred {
        Some(p) => if had == Some(p) {
            Seq::empty()
        } else {
            seq![p]
        },
        None => Seq::empty(),
    };
    first + second + seq![0u16]
}

/// Finds the number that a port had.
pub fn find_previous(s: &Vec<(String, u16)>, name: &str) -> (r: Option<u16>)
    ensures
        r == previous(given(s@), name@),
{
    let ghost all = given(s@);
    let mut i: usize = s.len();
    proof {
        assert(all.take(all.len() as int) =~= all);
    }
    while i > 0
        invariant
            i <= s.len(),
            all == given(s@),
            previous(all, name@) == previous(all.take(i as int), name@),
        decreases i,
    {
        i -= 1;
        proof {
            assert(all.take(i + 1).drop_last() =~= all.take(i as int));
            assert(all.take(i + 1).last() == (s@[i as int].0@, s@[i as int].1));
        }
        if text::same(s[i].0.as_str(), name) {
            return Some(s[i].1);
        }
    }
    None
}

/// Lists the numbers to try for a port.
pub fn candidates(had: Option<u16>, preferred: Option<u16>) -> (r: Vec<u16>)
    ensures
        r@ == to_try(had, preferred),
{
    let mut out: Vec<u16> = Vec::new();
    match had {
        Some(p) => out.push(p),
        None => {},
    }
    match preferred {
        Some(p) => {
            let again = match had {
                Some(h) => h == p,
                None => false,
            };
            if !again {
                out.push(p);
            }
        },
        None => {},
    }
    out.push(0);
    proof {
        assert(out@ =~= to_try(had, preferred));
    }
    out
}

/// A port that is asked for, and the numbers to try for it.
#[derive(Debug)]
pub struct Wanted {
    pub name: String,
    /// The number that the port keeps, where it is in use already.
    pub kept: Option<u16>,
    pub tries: Vec<u16>,
}

/// What a port that is asked for is.
#[verifier::ext_equal]
pub ghost struct WantedView {
    pub name: Seq<char>,
    pub kept: Option<u16>,
    pub tries: Seq<u16>,
}

impl View for Wanted {
    type V = WantedView;

    open spec fn view(&self) -> WantedView {
        WantedView { name: self.name@, kept: self.kept, tries: self.tries@ }
    }
}

/// What some ports that are asked for are.
pub open spec fn wanted_views(s: Seq<Wanted>) -> Seq<WantedView> {
    s.map_values(|w: Wanted| w@)
}

/// The ports that are asked for, where some were had before. Those of a process
/// that still runs are kept.
pub open spec fn wanted_ports(
    had: Seq<(Seq<char>, u16)>,
    runs: bool,
    asked: Seq<(Seq<char>, Option<u16>)>,
) -> Seq<WantedView> {
    asked.map_values(
        |p: (Seq<char>, Option<u16>)|
            WantedView {
                name: p.0,
                kept: if runs {
                    previous(had, p.0)
                } else {
                    None
                },
                tries: to_try(previous(had, p.0), p.1),
            },
    )
}

/// Lists the ports that are asked for, where some were had before.
pub fn list_wanted(had: &Vec<(String, u16)>, runs: bool, asked: &Vec<PortDefArg>) -> (r: Vec<
    Wanted,
>)
    ensures
        wanted_views(r@) == wanted_ports(given(had@), runs, api::ports_asked(asked@)),
{
    let mut out: Vec<Wanted> = Vec::new();
    let ghost want = wanted_ports(given(had@), runs, api::ports_asked(asked@));
    let mut i: usize = 0;
    while i < asked.len()
        invariant
            i <= asked.len(),
            out@.len() == i,
            want == wanted_ports(given(had@), runs, api::ports_asked(asked@)),
            forall|j: int| 0 <= j < i ==> (#[trigger] out@[j])@ == want[j],
        decreases asked.len() - i,
    {
        let p = &asked[i];
        let was = find_previous(had, p.name.as_str());
        let tries = candidates(was, p.default);
        let kept = if runs {
            was
        } else {
            None
        };
        out.push(Wanted { name: text::copy(p.name.as_str()), kept, tries });
        i += 1;
    }
    proof {
        assert(wanted_views(out@) =~= want);
    }
    out
}

// ---------------------------------------------------------------------------
// Allocation
// ---------------------------------------------------------------------------

/// How far the allocation of some ports has come: those that are left, and those
/// that have a number.
#[verifier::ext_equal]
pub ghost struct AllocationView {
    pub rest: Seq<WantedView>,
    pub done: Seq<(Seq<char>, u16)>,
}

/// An allocation after the ports that keep their number have got it.
pub open spec fn settled(a: AllocationView) -> AllocationView
    decreases a.rest.len(),
{
    if a.rest.len() == 0 {
        a
    } else {
        match a.rest[0].kept {
            Some(p) => settled(
                AllocationView {
                    rest: a.rest.skip(1),
                    done: a.done.push((a.rest[0].name, p)),
                },
            ),
            None => a,
        }
    }
}

/// An allocation after the first port that is left has got a number.
pub open spec fn allocated(a: AllocationView, port: u16) -> AllocationView {
    AllocationView { rest: a.rest.skip(1), done: a.done.push((a.rest[0].name, port)) }
}

/// An allocation after the first number of the first port that is left could not
/// be had.
pub open spec fn passed_over(a: AllocationView) -> AllocationView {
    let w = a.rest[0];
    AllocationView { rest: a.rest.update(0, WantedView { tries: w.tries.skip(1), ..w }), ..a }
}

/// The names of the ports in an allocation.
pub open spec fn allocation_names(a: AllocationView) -> Seq<Seq<char>> {
    a.done.map_values(|p: (Seq<char>, u16)| p.0) + a.rest.map_values(|w: WantedView| w.name)
}

/// The allocation of some ports.
#[derive(Debug)]
pub struct Allocation {
    rest: Vec<Wanted>,
    done: Vec<(String, u16)>,
}

impl View for Allocation {
    type V = AllocationView;

    closed spec fn view(&self) -> AllocationView {
        AllocationView { rest: wanted_views(self.rest@), done: given(self.done@) }
    }
}

impl Allocation {
    /// The start of an allocation.
    pub fn new(wanted: Vec<Wanted>) -> (r: Allocation)
        ensures
            r@ == (AllocationView { rest: wanted_views(wanted@), done: Seq::empty() }),
    {
        let r = Allocation { rest: wanted, done: Vec::new() };
        proof {
            assert(r@.done =~= Seq::<(Seq<char>, u16)>::empty());
        }
        r
    }

    fn give_next(&mut self, port: u16)
        requires
            old(self)@.rest.len() > 0,
        ensures
            final(self)@ == allocated(old(self)@, port),
    {
        let ghost before = self@;
        let w = self.rest.remove(0);
        self.done.push((w.name, port));
        proof {
            assert(self@ =~= allocated(before, port));
        }
    }

    /// The number to try next; none where every port has one, or where there is no
    /// number left to try.
    pub fn next_try(&mut self) -> (r: Option<u16>)
        ensures
            final(self)@ == settled(old(self)@),
            r == (if final(self)@.rest.len() > 0 && final(self)@.rest[0].tries.len() > 0 {
                Some(final(self)@.rest[0].tries[0])
            } else {
                None
            }),
    {
        let ghost before = self@;
        while self.rest.len() > 0
            invariant
                before == old(self)@,
                settled(self@) == settled(before),
            decreases self@.rest.len(),
        {
            let kept = self.rest[0].kept;
            proof {
                assert(self@.rest[0] == self.rest@[0]@);
            }
            match kept {
                Some(p) => {
                    self.give_next(p);
                },
                None => {
                    return if self.rest[0].tries.len() > 0 {
                        Some(self.rest[0].tries[0])
                    } else {
                        None
                    };
                },
            }
        }
        None
    }

    /// Notes what became of a try, and says what is wrong where no number is left.
    pub fn tried(&mut self, outcome: &Result<u16, String>) -> (r: Option<String>)
        requires
            old(self)@.rest.len() > 0,
            old(self)@.rest[0].tries.len() > 0,
        ensures
            match *outcome {
                Ok(p) => r is None && final(self)@ == allocated(old(self)@, p),
                Err(e) => final(self)@ == passed_over(old(self)@) && text::opt_text(r) == (if old(
                    self,
                )@.rest[0].tries.len() == 1 {
                    Some("failed to allocate port '"@ + old(self)@.rest[0].name + "': "@ + e@)
                } else {
                    None
                }),
            },
    {
        let ghost before = self@;
        proof {
            assert(self@.rest[0] == self.rest@[0]@);
        }
        match outcome {
            Ok(p) => {
                self.give_next(*p);
                None
            },
            Err(e) => {
                let mut w = self.rest.remove(0);
                let ghost was = w@;
                let _ = w.tries.remove(0);
                let r = if w.tries.len() == 0 {
                    Some(allocation_failed(w.name.as_str(), e.as_str()))
                } else {
                    None
                };
                let ghost now = w@;
                self.rest.insert(0, w);
                proof {
                    assert(now =~= WantedView { tries: was.tries.skip(1), ..was });
                    assert(self@.rest =~= passed_over(before).rest);
                }
                r
            },
        }
    }

    /// The ports with the numbers that they have got.
    pub fn into_ports(self) -> (r: Vec<(String, u16)>)
        ensures
            given(r@) == self@.done,
    {
        self.done
    }
}

/// No step of an allocation loses a port or adds one: at its end each port that
/// was asked for has one number.
pub proof fn lemma_allocation_names(a: AllocationView, port: u16)
    ensures
        allocation_names(settled(a)) == allocation_names(a),
        a.rest.len() > 0 ==> allocation_names(allocated(a, port)) == allocation_names(a),
        a.rest.len() > 0 ==> allocation_names(passed_over(a)) == allocation_names(a),
    decreases a.rest.len(),
{
    if a.rest.len() > 0 {
        assert(allocation_names(allocated(a, port)) =~= allocation_names(a));
        assert(allocation_names(passed_over(a)) =~= allocation_names(a));
        match a.rest[0].kept {
            Some(p) => {
                let b = allocated(a, p);
                assert(allocation_names(b) =~= allocation_names(a));
                lemma_allocation_names(b, port);
            },
            None => {},
        }
    }
}

/// The message where a port could not be had.
pub fn allocation_failed(name: &str, error: &str) -> (r: String)
    ensures
        r@ == "failed to allocate port '"@ + name@ + "': "@ + error@,
{
    let mut m = text::concat3("failed to allocate port '", name, "': ");
    text::push_text(&mut m, error);
    m
}

/// A port that was had before is tried first, and any free one comes last.
pub proof fn lemma_reuse(had: u16, preferred: Option<u16>)
    ensures
        to_try(Some(had), preferred)[0] == had,
        to_try(Some(had), preferred).last() == 0,
        to_try(None, preferred).last() == 0,
{
}

/// A text without references to ports stays as it is.
pub proof fn lemma_put_in_plain(s: Seq<char>, vars: Map<Seq<char>, Seq<char>>)
    requires
        !text::contains(s, "${port."@),
    ensures
        put_in(s, vars) == s,
    decreases s.len(),
{
    if s.len() > 0 {
        assert(!text::occurs_at(s, "${port."@, 0));
        let rest = s.skip(1);
        assert forall|i: int| !text::occurs_at(rest, "${port."@, i) by {
            if text::occurs_at(rest, "${port."@, i) {
                reveal_strlit("${port.");
                assert(rest.subrange(i, i + 7) =~= s.subrange(i + 1, i + 8));
                assert(text::occurs_at(s, "${port."@, i + 1));
            }
        }
        lemma_put_in_plain(rest, vars);
        assert(seq![s[0]] + rest =~= s);
    }
}

} // verus!
