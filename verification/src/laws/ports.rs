//! Which ports a process is given, and how it learns of them.
use crate::names::NameMap;
use crate::ports;
use crate::ports::{Allocation, Wanted};
use crate::protocol::PortDefArg;
use crate::psyfile;
use crate::psyfile::{ProbeConfig, ProbeKind};
use crate::root;
use crate::root::SharedRoot;
use crate::text;
use vstd::prelude::*;

verus! {

/// The number that a port had is tried first, then the one that is preferred, and any that
/// is free comes last; no other number is tried, and none twice.
pub proof fn lemma_numbers_to_try(had: Option<u16>, preferred: Option<u16>, r: Vec<u16>)
    requires
        call_ensures(ports::candidates, (had, preferred), r),
        had is Some ==> had->0 != 0,
        preferred is Some ==> preferred->0 != 0,
    ensures
        r@.len() > 0,
        r@.last() == 0,
        r@.no_duplicates(),
        had is Some ==> r@[0] == had->0,
        had is None && preferred is Some ==> r@[0] == preferred->0,
        had is Some && preferred is Some && had != preferred ==> r@.len() == 3 && r@[1]
            == preferred->0,
        had is None && preferred is None ==> r@.len() == 1,
        had is Some && (preferred is None || preferred == had) ==> r@.len() == 2,
        had is None && preferred is Some ==> r@.len() == 2,
{
}

/// The last number that a port of a name has in a list is the one that it had.
pub proof fn lemma_number_it_had(s: Vec<(String, u16)>, name: &str, r: Option<u16>)
    requires
        call_ensures(ports::find_previous, (&s, name), r),
    ensures
        r is Some <==> exists|i: int| 0 <= i < s@.len() && (#[trigger] s@[i]).0@ == name@,
        r is Some ==> exists|i: int|
            0 <= i < s@.len() && (#[trigger] s@[i]).0@ == name@ && s@[i].1 == r->0,
{
    lemma_previous(ports::given(s@), name@);
    let g = ports::given(s@);
    if r is Some {
        let i = choose|i: int| 0 <= i < g.len() && (#[trigger] g[i]).0 == name@ && g[i].1 == r->0;
        assert(s@[i].0@ == name@ && s@[i].1 == r->0);
    } else {
        assert forall|i: int| 0 <= i < s@.len() implies (#[trigger] s@[i]).0@ != name@ by {
            assert(g[i].0 == s@[i].0@);
        }
    }
}

proof fn lemma_previous(g: Seq<(Seq<char>, u16)>, name: Seq<char>)
    ensures
        ports::previous(g, name) is Some ==> exists|i: int|
            0 <= i < g.len() && (#[trigger] g[i]).0 == name && g[i].1 == ports::previous(
                g,
                name,
            )->0,
        ports::previous(g, name) is None ==> forall|i: int|
            0 <= i < g.len() ==> (#[trigger] g[i]).0 != name,
    decreases g.len(),
{
    if g.len() > 0 {
        let rest = g.drop_last();
        lemma_previous(rest, name);
        if g.last().0 == name {
            assert(g[g.len() - 1].1 == ports::previous(g, name)->0);
        } else if ports::previous(rest, name) is Some {
            let i = choose|i: int|
                0 <= i < rest.len() && (#[trigger] rest[i]).0 == name && rest[i].1
                    == ports::previous(rest, name)->0;
            assert(g[i] == rest[i]);
        } else {
            assert forall|i: int| 0 <= i < g.len() implies (#[trigger] g[i]).0 != name by {
                if i < rest.len() {
                    assert(g[i] == rest[i]);
                }
            }
        }
    }
}

/// Each port that is asked for is wanted, in order. One of a process that runs keeps its
/// number; otherwise the number that it had is tried first, and then the preferred one.
pub proof fn lemma_ports_are_wanted(
    root: SharedRoot,
    name: &str,
    asked: Vec<PortDefArg>,
    r: Vec<Wanted>,
    i: int,
    port: &str,
    had: Vec<(String, u16)>,
    was: Option<u16>,
    tries: Vec<u16>,
)
    requires
        call_ensures(SharedRoot::ports_wanted, (&root, name, &asked), r),
        root@.table.dom().contains(name@) ==> ports::given(had@) == root@.table[name@].ports,
        !root@.table.dom().contains(name@) ==> had@.len() == 0,
        0 <= i < asked@.len(),
        port@ == asked@[i].name@,
        call_ensures(ports::find_previous, (&had, port), was),
        call_ensures(ports::candidates, (was, asked@[i].default), tries),
    ensures
        r@.len() == asked@.len(),
        r@[i].name@ == asked@[i].name@,
        r@[i].tries@ == tries@,
        root::runs(root@, name@) ==> r@[i].kept == was,
        !root::runs(root@, name@) ==> r@[i].kept is None,
{
    let v = ports::wanted_views(r@);
    assert(v.len() == r@.len());
    assert(v[i] == r@[i]@);
    if had@.len() == 0 {
        assert(ports::given(had@) =~= Seq::<(Seq<char>, u16)>::empty());
    }
}

/// A number that could be had is given to the port that it was tried for; where it could
/// not, the next one is tried, and where there is no next one, the answer names the port.
pub proof fn lemma_a_try(
    a: &mut Allocation,
    outcome: Result<u16, String>,
    r: Option<String>,
)
    requires
        old(a)@.rest.len() > 0,
        old(a)@.rest[0].tries.len() > 0,
        call_ensures(Allocation::tried, (a, &outcome), r),
    ensures
        outcome matches Ok(p) ==> {
            &&& r is None
            &&& final(a)@.done.len() == old(a)@.done.len() + 1
            &&& final(a)@.done.last() == (old(a)@.rest[0].name, p)
            &&& final(a)@.done.drop_last() == old(a)@.done
            &&& final(a)@.rest == old(a)@.rest.skip(1)
        },
        outcome matches Err(e) ==> {
            &&& final(a)@.done == old(a)@.done
            &&& final(a)@.rest.len() == old(a)@.rest.len()
            &&& final(a)@.rest[0].name == old(a)@.rest[0].name
            &&& final(a)@.rest[0].tries == old(a)@.rest[0].tries.skip(1)
            &&& r is Some <==> final(a)@.rest[0].tries.len() == 0
            &&& r is Some ==> text::contains(r->0@, old(a)@.rest[0].name) && text::ends_with(
                r->0@,
                e@,
            )
        },
{
    match outcome {
        Ok(p) => {
            assert(final(a)@.done.drop_last() =~= old(a)@.done);
        },
        Err(e) => {
            if r is Some {
                let head = "failed to allocate port '"@;
                let name = old(a)@.rest[0].name;
                let m = r->0@;
                assert(m.subrange(head.len() as int, (head.len() + name.len()) as int) =~= name);
                assert(text::occurs_at(m, name, head.len() as int));
                assert(m.subrange(m.len() - e@.len(), m.len() as int) =~= e@);
            }
        },
    }
}

/// Whether a port has the number that it was to keep.
pub open spec fn keeps_its_number(w: ports::WantedView, given: (Seq<char>, u16)) -> bool {
    w.kept is Some && given == (w.name, w.kept->0)
}

/// The number that is tried next is the first one for the first port that has none yet.
/// Ports that keep their number have it by then. Nothing is tried once each port has one.
pub proof fn lemma_next_number(a: &mut Allocation, r: Option<u16>)
    requires
        call_ensures(Allocation::next_try, (a,), r),
    ensures
        final(a)@.rest.len() == 0 ==> r is None,
        final(a)@.rest.len() > 0 ==> final(a)@.rest[0].kept is None,
        final(a)@.rest.len() > 0 && final(a)@.rest[0].tries.len() > 0 ==> r == Some(
            final(a)@.rest[0].tries[0],
        ),
        final(a)@.done.len() + final(a)@.rest.len() == old(a)@.done.len() + old(a)@.rest.len(),
        final(a)@.done.take(old(a)@.done.len() as int) == old(a)@.done,
        forall|i: int|
            old(a)@.done.len() <= i < final(a)@.done.len() ==> keeps_its_number(
                old(a)@.rest[i - old(a)@.done.len()],
                #[trigger] final(a)@.done[i],
            ),
        final(a)@.rest == old(a)@.rest.skip(final(a)@.done.len() - old(a)@.done.len()),
{
    lemma_settled(old(a)@);
}

proof fn lemma_settled(a: ports::AllocationView)
    ensures
        ({
            let b = ports::settled(a);
            &&& b.rest.len() > 0 ==> b.rest[0].kept is None
            &&& b.done.len() >= a.done.len()
            &&& b.done.len() + b.rest.len() == a.done.len() + a.rest.len()
            &&& b.done.take(a.done.len() as int) == a.done
            &&& forall|i: int|
                a.done.len() <= i < b.done.len() ==> keeps_its_number(
                    a.rest[i - a.done.len()],
                    #[trigger] b.done[i],
                )
            &&& b.rest == a.rest.skip(b.done.len() - a.done.len())
        }),
    decreases a.rest.len(),
{
    let b = ports::settled(a);
    if a.rest.len() > 0 && a.rest[0].kept is Some {
        let c = ports::AllocationView {
            rest: a.rest.skip(1),
            done: a.done.push((a.rest[0].name, a.rest[0].kept->0)),
        };
        lemma_settled(c);
        assert(b.done.take(a.done.len() as int) =~= c.done.take(a.done.len() as int)) by {
            assert(b.done.take(c.done.len() as int) == c.done);
            assert forall|i: int| 0 <= i < a.done.len() implies b.done[i] == c.done[i] by {
                assert(b.done.take(c.done.len() as int)[i] == c.done[i]);
            }
        }
        assert(c.done.take(a.done.len() as int) =~= a.done);
        assert(b == ports::settled(c));
        assert forall|i: int| a.done.len() <= i < b.done.len() implies keeps_its_number(
            a.rest[i - a.done.len()],
            #[trigger] b.done[i],
        ) by {
            if i == a.done.len() {
                assert(b.done.take(c.done.len() as int)[i] == c.done[i]);
            } else {
                assert(c.rest[i - c.done.len()] == a.rest[i - a.done.len()]);
            }
        }
        assert(b.rest =~= a.rest.skip(b.done.len() - a.done.len()));
    } else {
        assert(a.done.take(a.done.len() as int) =~= a.done);
        assert(a.rest.skip(0) =~= a.rest);
    }
}

/// An allocation begins with what is wanted, and ends with the numbers that were given.
pub proof fn lemma_allocation(wanted: Vec<Wanted>, a: Allocation, b: Allocation, r: Vec<(String, u16)>)
    requires
        call_ensures(Allocation::new, (wanted,), a),
        call_ensures(Allocation::into_ports, (b,), r),
    ensures
        a@.done.len() == 0,
        a@.rest.len() == wanted@.len(),
        forall|i: int| 0 <= i < wanted@.len() ==> #[trigger] a@.rest[i] == wanted@[i]@,
        r@.len() == b@.done.len(),
        forall|i: int|
            0 <= i < r@.len() ==> (#[trigger] r@[i]).0@ == b@.done[i].0 && r@[i].1
                == b@.done[i].1,
{
    assert(ports::given(r@).len() == r@.len());
    assert forall|i: int| 0 <= i < r@.len() implies (#[trigger] r@[i]).0@ == b@.done[i].0
        && r@[i].1 == b@.done[i].1 by {
        assert(ports::given(r@)[i] == b@.done[i]);
    }
}

/// A reference to a port that is known is replaced by its number; what stands before it
/// stays as it is, and what stands behind it is treated the same way. One that is not known
/// stays.
pub proof fn lemma_reference_gets_its_number(
    t: &str,
    rest: &str,
    vars: NameMap<String>,
    r: String,
    s: String,
    name: Seq<char>,
)
    requires
        call_ensures(ports::put_ports, (t, &vars), r),
        call_ensures(ports::put_ports, (rest, &vars), s),
        t@ == "${port."@ + name + "}"@ + rest@,
        !name.contains('}'),
        vars@.dom().contains("port."@ + name),
    ensures
        r@ == vars@["port."@ + name]@ + s@,
{
    reveal_strlit("${port.");
    reveal_strlit("}");
    reveal_strlit("port.");
    let v = psyfile::env_view(vars);
    let x = t@;
    assert(x.subrange(0, 7) =~= "${port."@);
    assert(ports::begins_ref(x));
    let inner = "port."@ + name;
    let body = x.skip(2);
    assert(body =~= inner + "}"@ + rest@);
    assert forall|j: int| 0 <= j < inner.len() implies body[j] != '}' by {
        assert(body[j] == inner[j]);
        if j >= 5 {
            assert(inner[j] == name[j - 5]);
        }
    }
    assert(body[inner.len() as int] == '}');
    text::lemma_position_unique(body, '}', inner.len());
    assert(ports::ref_end(x) == inner.len());
    assert(body.take(inner.len() as int) =~= inner);
    assert(body.skip(inner.len() as int + 1) =~= rest@);
    assert(v.dom().contains(inner));
    assert(v[inner] == vars@[inner]@);
}

/// A text that refers to no port stays as it is.
pub proof fn lemma_text_without_ports(t: &str, vars: NameMap<String>, r: String)
    requires
        call_ensures(ports::put_ports, (t, &vars), r),
        !text::contains(t@, "${port."@),
    ensures
        r@ == t@,
{
    ports::lemma_put_in_plain(t@, psyfile::env_view(vars));
}

/// A probe keeps its kind and its times when ports are put in, and a port alone is one of
/// this machine.
pub proof fn lemma_ports_in_probes(
    p: ProbeConfig,
    vars: NameMap<String>,
    r: Option<ProbeConfig>,
    none: Option<ProbeConfig>,
    text_of: &str,
    put: String,
)
    requires
        call_ensures(ports::put_in_probe, (&Some(p), &vars), r),
        call_ensures(ports::put_in_probe, (&None, &vars), none),
        p.probe matches ProbeKind::Tcp(a) ==> text_of@ == a@,
        p.probe matches ProbeKind::Http(a) ==> text_of@ == a@,
        p.probe matches ProbeKind::Exec(a) ==> text_of@ == a@,
        call_ensures(ports::put_ports, (text_of, &vars), put),
    ensures
        none is None,
        r is Some,
        r->0.interval == p.interval,
        r->0.timeout == p.timeout,
        r->0.retries == p.retries,
        p.probe is Exit ==> r->0@.probe == p@.probe,
        p.probe is Http ==> r->0.probe is Http && r->0.probe->Http_0@ == put@,
        p.probe is Exec ==> r->0.probe is Exec && r->0.probe->Exec_0@ == put@,
        p.probe is Tcp ==> r->0.probe is Tcp && (r->0.probe->Tcp_0@ == put@ || r->0.probe->Tcp_0@
            == "localhost:"@ + put@),
        p.probe is Tcp && put@ == text_of@ ==> r->0.probe->Tcp_0@ == put@,
        p.probe is Tcp && put@ != text_of@ && put@.len() > 0 && (forall|i: int|
            0 <= i < put@.len() ==> '0' <= #[trigger] put@[i] <= '9') ==> r->0.probe->Tcp_0@
            == "localhost:"@ + put@,
{
    assert(r->0@ == ports::probe_in(p@, psyfile::env_view(vars)));
}

/// What is reported of ports by name is the number of each.
pub proof fn lemma_numbers_by_name(s: Vec<(String, u16)>, r: NameMap<u16>, i: int)
    requires
        call_ensures(ports::numbers_by_name, (&s,), r),
        0 <= i < s@.len(),
        forall|j: int| i < j < s@.len() ==> (#[trigger] s@[j]).0@ != s@[i].0@,
    ensures
        r@.dom().contains(s@[i].0@),
        r@[s@[i].0@] == s@[i].1,
{
    let g = ports::given(s@);
    assert forall|j: int| i < j < g.len() implies (#[trigger] g[j]).0 != g[i].0 by {
        assert(g[j].0 == s@[j].0@ && g[i].0 == s@[i].0@);
    }
    lemma_by_name(g, i);
    assert(g[i] == (s@[i].0@, s@[i].1));
}

proof fn lemma_by_name(g: Seq<(Seq<char>, u16)>, i: int)
    requires
        0 <= i < g.len(),
        forall|j: int| i < j < g.len() ==> (#[trigger] g[j]).0 != g[i].0,
    ensures
        ports::by_name(g).dom().contains(g[i].0),
        ports::by_name(g)[g[i].0] == g[i].1,
    decreases g.len(),
{
    if i < g.len() - 1 {
        let rest = g.drop_last();
        assert forall|j: int| i < j < rest.len() implies (#[trigger] rest[j]).0 != rest[i].0 by {
            assert(rest[j] == g[j] && rest[i] == g[i]);
        }
        lemma_by_name(rest, i);
        assert(g[g.len() - 1].0 != g[i].0);
    }
}

/// A text that refers to a port of another unit names that unit.
pub proof fn lemma_units_are_named(t: &str, rest: &str, r: Vec<String>, s: Vec<String>, name: Seq<char>, unit: Seq<char>)
    requires
        call_ensures(ports::units_named, (t,), r),
        call_ensures(ports::units_named, (rest,), s),
        t@ == "${port."@ + name + "@"@ + unit + "}"@ + rest@,
        !name.contains('}'),
        !name.contains('@'),
        !unit.contains('}'),
    ensures
        text::texts(r@) == seq![unit] + text::texts(s@),
{
    reveal_strlit("${port.");
    reveal_strlit("}");
    reveal_strlit("@");
    let x = t@;
    assert(x.subrange(0, 7) =~= "${port."@);
    let head = x.subrange(2, 7);
    let inner = head + name + "@"@ + unit;
    let body = x.skip(2);
    assert(body =~= inner + "}"@ + rest@);
    assert(head[0] == 'p' && head[1] == 'o' && head[2] == 'r' && head[3] == 't' && head[4] == '.');
    assert forall|j: int| 0 <= j < inner.len() implies body[j] != '}' by {
        assert(body[j] == inner[j]);
        if 5 <= j < 5 + name.len() {
            assert(inner[j] == name[j - 5]);
        } else if j > 5 + name.len() {
            assert(inner[j] == unit[j - 6 - name.len()]);
        }
    }
    assert(body[inner.len() as int] == '}');
    text::lemma_position_unique(body, '}', inner.len());
    assert(body.take(inner.len() as int) =~= inner);
    assert(body.skip(inner.len() as int + 1) =~= rest@);
    let at = 5 + name.len();
    assert forall|j: int| 0 <= j < at implies inner[j] != '@' by {
        if j >= 5 {
            assert(inner[j] == name[j - 5]);
        }
    }
    assert(inner[at as int] == '@');
    text::lemma_position_unique(inner, '@', at as nat);
    assert(inner.skip(at as int + 1) =~= unit);
}

/// In the variable for a port the letters of its name are capitals, and a hyphen is an
/// underscore.
pub proof fn lemma_variable_of_a_port(given: Vec<(String, u16)>, r: NameMap<String>, name: Seq<char>)
    requires
        call_ensures(ports::port_env_of, (&given,), r),
        given@.len() == 1,
        name.len() == given@[0].0@.len(),
        forall|i: int|
            0 <= i < name.len() ==> {
                let c = given@[0].0@[i];
                if 'a' <= c <= 'z' {
                    #[trigger] name[i] as int == c as int - 32
                } else if c == '-' {
                    name[i] == '_'
                } else {
                    name[i] == c
                }
            },
    ensures
        r@.dom().contains("PSY_PORT_"@ + name),
        r@["PSY_PORT_"@ + name]@ == text::decimal(given@[0].1 as nat),
        forall|k: Seq<char>| #[trigger] r@.dom().contains(k) ==> k == "PSY_PORT_"@ + name,
{
    let g = ports::given(given@);
    assert(g[0] == (given@[0].0@, given@[0].1));
    assert(g.len() == 1);
    let rest = g.drop_last();
    assert(rest.len() == 0);
    assert(ports::port_env(rest) == Map::<Seq<char>, Seq<char>>::empty());
    let c = ports::capitals(g[0].0);
    assert forall|i: int| 0 <= i < name.len() implies c[i] == name[i] by {
        let x = given@[0].0@[i];
        assert(c[i] == ports::capital(x));
        if 'a' <= x <= 'z' {
            assert(name[i] as int == x as int - 32);
        } else if x == '-' {
            assert(name[i] == '_');
        } else {
            assert(name[i] == x);
        }
    }
    assert(c =~= name);
    let v = psyfile::env_view(r);
    let k = "PSY_PORT_"@ + name;
    assert(v.dom().contains(k));
    assert(v[k] == r@[k]@);
    assert forall|j: Seq<char>| #[trigger] r@.dom().contains(j) implies j == k by {
        assert(v.dom().contains(j));
    }
}

} // verus!
