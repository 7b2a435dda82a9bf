//! Restart cascades: what restarts after a process has. Units follow the ones that
//! they depend on, and so do processes that were started with dependencies of their
//! own.
use crate::marks;
use crate::names::NameMap;
use crate::order;
use crate::process::EntryView;
use crate::protocol::RestartPolicy;
use crate::psyfile;
use crate::psyfile::{Dependency, DependencyView, Psyfile, UnitDef, UnitView};
use crate::recipe;
use crate::root::run;
use crate::root::SharedRoot;
use crate::text;
use vstd::prelude::*;

verus! {

// ---------------------------------------------------------------------------
// What depends on what
// ---------------------------------------------------------------------------

/// A unit of which only the dependencies count.
pub open spec fn node(deps: Seq<DependencyView>) -> UnitView {
    UnitView {
        command: Seq::empty(),
        restart: RestartPolicy::No,
        env: Map::empty(),
        depends_on: deps,
        singleton: true,
        interactive: false,
        ports: Seq::empty(),
        port_units: Seq::empty(),
        sub_root: false,
        working_dir: None,
        ready: None,
        healthcheck: None,
    }
}

/// What depends on what: each unit as the Psyfile says, and each other process as the
/// request that started it said.
pub open spec fn graph(
    units: Map<Seq<char>, UnitView>,
    table: Map<Seq<char>, EntryView>,
) -> Map<Seq<char>, UnitView> {
    Map::new(
        |k: Seq<char>| units.dom().contains(k) || table.dom().contains(k),
        |k: Seq<char>|
            if units.dom().contains(k) {
                node(units[k].depends_on)
            } else {
                node(table[k].recipe.depends_on)
            },
    )
}

/// Some names, of those that are not in a list.
pub open spec fn absent(s: Seq<Seq<char>>, list: Seq<Seq<char>>) -> Seq<Seq<char>>
    decreases s.len(),
{
    if s.len() == 0 {
        Seq::empty()
    } else if list.contains(s.last()) {
        absent(s.drop_last(), list)
    } else {
        absent(s.drop_last(), list).push(s.last())
    }
}

/// The names of the units, then those of the other processes.
pub open spec fn graph_names(
    unit_names: Seq<Seq<char>>,
    process_names: Seq<Seq<char>>,
) -> Seq<Seq<char>> {
    unit_names + absent(process_names, unit_names)
}

/// The names of the units of a Psyfile that could be loaded.
pub open spec fn loaded_names(psyfile: Result<Option<Psyfile>, String>) -> Seq<Seq<char>> {
    match psyfile {
        Ok(Some(p)) => p.units.names(),
        _ => Seq::empty(),
    }
}

/// Some dependencies, of those on a name of a set.
pub open spec fn among(deps: Seq<DependencyView>, known: Set<Seq<char>>) -> Seq<DependencyView>
    decreases deps.len(),
{
    if deps.len() == 0 {
        Seq::empty()
    } else if known.contains(deps.last().name) {
        among(deps.drop_last(), known).push(deps.last())
    } else {
        among(deps.drop_last(), known)
    }
}

/// What depends on what, without the names that nothing is known of.
pub open spec fn known_graph(g: Map<Seq<char>, UnitView>) -> Map<Seq<char>, UnitView> {
    Map::new(
        |k: Seq<char>| g.dom().contains(k),
        |k: Seq<char>| node(among(g[k].depends_on, g.dom())),
    )
}

// ---------------------------------------------------------------------------
// What restarts
// ---------------------------------------------------------------------------

/// Whether a unit restarts with one that it depends on directly.
pub open spec fn follows(u: UnitView, dep: Seq<char>) -> bool {
    exists|i: int|
        0 <= i < u.depends_on.len() && (#[trigger] u.depends_on[i]).restart
            && u.depends_on[i].name == dep
}

/// Whether a restart of one unit reaches another within `n` steps.
pub open spec fn reached(
    units: Map<Seq<char>, UnitView>,
    from: Seq<char>,
    name: Seq<char>,
    n: nat,
) -> bool
    decreases n,
{
    &&& n > 0
    &&& units.dom().contains(name)
    &&& (follows(units[name], from) || exists|i: int|
        0 <= i < units[name].depends_on.len() && (#[trigger] units[name].depends_on[i]).restart
            && reached(units, from, units[name].depends_on[i].name, (n - 1) as nat))
}

/// Whether a restart of one unit reaches another.
pub open spec fn cascades(
    units: Map<Seq<char>, UnitView>,
    from: Seq<char>,
    name: Seq<char>,
) -> bool {
    exists|n: nat| reached(units, from, name, n)
}

/// The units that a restart reaches, in the order of the given names.
pub open spec fn hits(
    units: Map<Seq<char>, UnitView>,
    names: Seq<Seq<char>>,
    from: Seq<char>,
) -> Seq<Seq<char>>
    decreases names.len(),
{
    if names.len() == 0 {
        Seq::empty()
    } else if cascades(units, from, names.last()) {
        hits(units, names.drop_last(), from).push(names.last())
    } else {
        hits(units, names.drop_last(), from)
    }
}

/// Some names, of those that are also in a list.
pub open spec fn kept(s: Seq<Seq<char>>, list: Seq<Seq<char>>) -> Seq<Seq<char>>
    decreases s.len(),
{
    if s.len() == 0 {
        Seq::empty()
    } else if list.contains(s.last()) {
        kept(s.drop_last(), list).push(s.last())
    } else {
        kept(s.drop_last(), list)
    }
}

/// What restarts after another one has, each behind those that it depends on. The
/// order is that of the names where some depend on each other in a circle.
pub open spec fn cascade_order(
    units: Map<Seq<char>, UnitView>,
    names: Seq<Seq<char>>,
    from: Seq<char>,
) -> Seq<Seq<char>> {
    let hit = hits(units, names, from);
    match order::visit_all(known_graph(units), hit, Seq::empty(), Seq::empty()) {
        Ok(o) => kept(o, hit),
        Err(_) => hit,
    }
}

/// Whether a unit follows the restarted one or a marked unit.
spec fn next_hit(names: Seq<Seq<char>>, done: Seq<bool>, u: UnitView, from: Seq<char>) -> bool {
    exists|i: int|
        0 <= i < u.depends_on.len() && (#[trigger] u.depends_on[i]).restart && (
        u.depends_on[i].name == from || marks::marked(names, done, u.depends_on[i].name))
}

/// Where no unmarked unit follows the restarted one or a marked unit, none is
/// reached.
proof fn lemma_unmarked(
    units: Map<Seq<char>, UnitView>,
    names: Seq<Seq<char>>,
    done: Seq<bool>,
    from: Seq<char>,
    name: Seq<char>,
    n: nat,
)
    requires
        names.no_duplicates(),
        done.len() == names.len(),
        forall|k: Seq<char>| #[trigger] units.dom().contains(k) <==> names.contains(k),
        forall|i: int|
            0 <= i < names.len() && !#[trigger] done[i] ==> !next_hit(
                names,
                done,
                units[names[i]],
                from,
            ),
        !marks::marked(names, done, name),
    ensures
        !reached(units, from, name, n),
    decreases n,
{
    if n > 0 && units.dom().contains(name) {
        assert(names.contains(name));
        let k = names.index_of(name);
        assert(names[k] == name);
        assert(!done[k]);
        let u = units[name];
        assert(!next_hit(names, done, u, from));
        if follows(u, from) {
            let i = choose|i: int|
                0 <= i < u.depends_on.len() && (#[trigger] u.depends_on[i]).restart
                    && u.depends_on[i].name == from;
            assert(next_hit(names, done, u, from));
        }
        assert forall|i: int|
            0 <= i < u.depends_on.len() && (#[trigger] u.depends_on[i]).restart implies !reached(
            units,
            from,
            u.depends_on[i].name,
            (n - 1) as nat,
        ) by {
            if marks::marked(names, done, u.depends_on[i].name) {
                assert(next_hit(names, done, u, from));
            }
            lemma_unmarked(units, names, done, from, u.depends_on[i].name, (n - 1) as nat);
        }
    }
}

fn test_next(p: &Psyfile, unit: &UnitDef, done: &Vec<bool>, from: &str) -> (r: bool)
    requires
        done@.len() == p.units.names().len(),
        p.units.names().no_duplicates(),
    ensures
        r == next_hit(p.units.names(), done@, unit@, from@),
{
    let ghost names = p.units.names();
    let ghost u = unit@;
    let mut j: usize = 0;
    while j < unit.depends_on.len()
        invariant
            j <= unit.depends_on.len(),
            names == p.units.names(),
            names.no_duplicates(),
            done@.len() == names.len(),
            u == unit@,
            forall|i: int|
                0 <= i < j ==> !((#[trigger] u.depends_on[i]).restart && (u.depends_on[i].name
                    == from@ || marks::marked(names, done@, u.depends_on[i].name))),
        decreases unit.depends_on.len() - j,
    {
        let d = &unit.depends_on[j];
        proof {
            assert(u.depends_on[j as int] == d@);
        }
        if d.restart {
            if text::same(d.name.as_str(), from) {
                proof {
                    assert(u.depends_on[j as int].restart);
                }
                return true;
            }
            match p.units.position(d.name.as_str()) {
                Some(k) => {
                    if done[k] {
                        proof {
                            assert(done@[k as int]);
                            assert(marks::marked(names, done@, u.depends_on[j as int].name));
                        }
                        return true;
                    }
                    proof {
                        assert forall|q: int| 0 <= q < names.len() && names[q] == d.name@ implies !(
                        #[trigger] done@[q]) by {
                            assert(q == k);
                        }
                    }
                },
                None => {},
            }
        }
        j += 1;
    }
    false
}

/// The units that a restart reaches, in the order of the Psyfile.
fn find_hits(psyfile: &Psyfile, from: &str) -> (r: Vec<String>)
    ensures
        text::texts(r@) == hits(
            psyfile::units_view(psyfile.units@),
            psyfile.units.names(),
            from@,
        ),
{
    let ghost units = psyfile::units_view(psyfile.units@);
    let ghost names = psyfile.units.names();
    let n = psyfile.units.len();
    proof {
        psyfile.units.lemma_names();
    }
    let mut done = marks::none_marked(n);
    let mut changed = true;
    while changed
        invariant
            n == names.len(),
            names == psyfile.units.names(),
            names.no_duplicates(),
            units == psyfile::units_view(psyfile.units@),
            forall|k: Seq<char>| #[trigger] units.dom().contains(k) <==> names.contains(k),
            done@.len() == n,
            forall|k: int| 0 <= k < n && #[trigger] done@[k] ==> cascades(units, from@, names[k]),
            !changed ==> forall|i: int|
                0 <= i < n && !#[trigger] done@[i] ==> !next_hit(
                    names,
                    done@,
                    units[names[i]],
                    from@,
                ),
        decreases marks::count_open(done@), (if changed { 1nat } else { 0nat }),
    {
        changed = false;
        let ghost start = done@;
        let mut i: usize = 0;
        while i < n
            invariant
                i <= n,
                n == names.len(),
                names == psyfile.units.names(),
                names.no_duplicates(),
                units == psyfile::units_view(psyfile.units@),
                forall|k: Seq<char>| #[trigger] units.dom().contains(k) <==> names.contains(k),
                done@.len() == n,
                forall|k: int|
                    0 <= k < n && #[trigger] done@[k] ==> cascades(units, from@, names[k]),
                !changed ==> done@ == start,
                marks::count_open(done@) <= marks::count_open(start),
                changed ==> marks::count_open(done@) < marks::count_open(start),
                !changed ==> forall|q: int|
                    0 <= q < i && !#[trigger] done@[q] ==> !next_hit(
                        names,
                        done@,
                        units[names[q]],
                        from@,
                    ),
            decreases n - i,
        {
            if !done[i] {
                let unit = psyfile.units.value_at(i);
                proof {
                    assert(units[names[i as int]] == unit@);
                }
                if test_next(psyfile, unit, &done, from) {
                    proof {
                        let u = unit@;
                        let name = names[i as int];
                        assert(names.contains(name));
                        let j = choose|j: int|
                            0 <= j < u.depends_on.len() && (#[trigger] u.depends_on[j]).restart && (
                            u.depends_on[j].name == from@ || marks::marked(
                                names,
                                done@,
                                u.depends_on[j].name,
                            ));
                        let d = u.depends_on[j].name;
                        if d == from@ {
                            assert(follows(u, from@));
                            assert(reached(units, from@, name, 1));
                        } else {
                            let k = choose|k: int|
                                0 <= k < names.len() && names[k] == d && #[trigger] done@[k];
                            assert(cascades(units, from@, names[k]));
                            let m = choose|m: nat| reached(units, from@, d, m);
                            assert(reached(units, from@, u.depends_on[j].name, m));
                            assert(reached(units, from@, name, m + 1));
                        }
                        marks::lemma_count_open(done@, i as int);
                    }
                    done.set(i, true);
                    changed = true;
                }
            }
            i += 1;
        }
    }
    let mut out: Vec<String> = Vec::new();
    let mut i: usize = 0;
    proof {
        assert(text::texts(out@) =~= hits(units, names.take(0), from@));
    }
    while i < n
        invariant
            i <= n,
            n == names.len(),
            names == psyfile.units.names(),
            names.no_duplicates(),
            units == psyfile::units_view(psyfile.units@),
            forall|k: Seq<char>| #[trigger] units.dom().contains(k) <==> names.contains(k),
            done@.len() == n,
            forall|k: int| 0 <= k < n && #[trigger] done@[k] ==> cascades(units, from@, names[k]),
            forall|i: int|
                0 <= i < n && !#[trigger] done@[i] ==> !next_hit(
                    names,
                    done@,
                    units[names[i]],
                    from@,
                ),
            text::texts(out@) == hits(units, names.take(i as int), from@),
        decreases n - i,
    {
        let ghost longer = names.take(i + 1);
        proof {
            assert(longer.drop_last() =~= names.take(i as int));
            assert(longer.last() == names[i as int]);
        }
        if done[i] {
            let name = text::copy(psyfile.units.name_at(i).as_str());
            let ghost before = out@;
            out.push(name);
            proof {
                assert(cascades(units, from@, names[i as int]));
                assert(text::texts(out@) =~= text::texts(before).push(name@));
            }
        } else {
            proof {
                assert forall|m: nat| !reached(units, from@, names[i as int], m) by {
                    assert forall|q: int|
                        0 <= q < names.len() && names[q] == names[i as int] implies !(
                    #[trigger] done@[q]) by {
                        assert(q == i);
                    }
                    lemma_unmarked(units, names, done@, from@, names[i as int], m);
                }
            }
        }
        i += 1;
    }
    proof {
        assert(names.take(n as int) =~= names);
    }
    out
}

/// Makes a unit of which only the dependencies count.
fn make_node(depends_on: Vec<Dependency>) -> (r: UnitDef)
    ensures
        r@ == node(psyfile::deps_view(depends_on@)),
{
    let ghost deps = psyfile::deps_view(depends_on@);
    let r = UnitDef {
        command: String::new(),
        restart: RestartPolicy::No,
        env: NameMap::new(),
        depends_on,
        singleton: true,
        interactive: false,
        ports: Vec::new(),
        port_units: Vec::new(),
        sub_root: false,
        working_dir: None,
        ready: None,
        healthcheck: None,
    };
    proof {
        assert(r@ =~= node(deps));
    }
    r
}

proof fn lemma_absent(s: Seq<Seq<char>>, list: Seq<Seq<char>>, k: Seq<char>)
    ensures
        absent(s, list).contains(k) <==> s.contains(k) && !list.contains(k),
    decreases s.len(),
{
    if s.len() > 0 {
        let rest = s.drop_last();
        let before = absent(rest, list);
        lemma_absent(rest, list, k);
        if rest.contains(k) {
            let i = rest.index_of(k);
            assert(s[i] == k);
        }
        if s.contains(k) && k != s.last() {
            let i = s.index_of(k);
            assert(rest[i] == k);
        }
        assert(s[s.len() - 1] == s.last());
        if !list.contains(s.last()) {
            let r = before.push(s.last());
            if before.contains(k) {
                let i = before.index_of(k);
                assert(r[i] == k);
            }
            assert(r[before.len() as int] == s.last());
            if r.contains(k) && k != s.last() {
                let i = r.index_of(k);
                assert(before[i] == k);
            }
        }
    }
}

proof fn lemma_absent_distinct(s: Seq<Seq<char>>, list: Seq<Seq<char>>)
    requires
        s.no_duplicates(),
    ensures
        absent(s, list).no_duplicates(),
    decreases s.len(),
{
    if s.len() > 0 {
        let rest = s.drop_last();
        lemma_absent_distinct(rest, list);
        lemma_absent(rest, list, s.last());
        if rest.contains(s.last()) {
            let i = rest.index_of(s.last());
            assert(s[i] == s[s.len() - 1]);
        }
    }
}

/// The names of the units and of the other processes are all of them, each once.
pub proof fn lemma_graph_names(unit_names: Seq<Seq<char>>, process_names: Seq<Seq<char>>)
    requires
        unit_names.no_duplicates(),
        process_names.no_duplicates(),
    ensures
        graph_names(unit_names, process_names).no_duplicates(),
        forall|k: Seq<char>| #[trigger]
            graph_names(unit_names, process_names).contains(k) <==> unit_names.contains(k)
                || process_names.contains(k),
{
    let others = absent(process_names, unit_names);
    let all = graph_names(unit_names, process_names);
    lemma_absent_distinct(process_names, unit_names);
    assert forall|i: int, j: int| 0 <= i < j < all.len() implies all[i] != all[j] by {
        if i < unit_names.len() && j >= unit_names.len() {
            lemma_absent(process_names, unit_names, all[j]);
            assert(others[j - unit_names.len()] == all[j]);
            assert(unit_names.contains(unit_names[i]));
        }
    }
    assert forall|k: Seq<char>| #[trigger] all.contains(k) <==> unit_names.contains(k)
        || process_names.contains(k) by {
        lemma_absent(process_names, unit_names, k);
        if unit_names.contains(k) {
            let i = unit_names.index_of(k);
            assert(all[i] == k);
        }
        if others.contains(k) {
            let i = others.index_of(k);
            assert(all[unit_names.len() + i] == k);
        }
        if all.contains(k) {
            let i = all.index_of(k);
            if i < unit_names.len() {
                assert(unit_names[i] == k);
            } else {
                assert(others[i - unit_names.len()] == k);
            }
        }
    }
}

/// Collects the dependencies of the units.
fn unit_nodes(psyfile: &Result<Option<Psyfile>, String>) -> (r: NameMap<UnitDef>)
    ensures
        r.names() == loaded_names(*psyfile),
        r.names().no_duplicates(),
        forall|k: Seq<char>| #[trigger]
            r@.dom().contains(k) <==> run::loaded_units(*psyfile).dom().contains(k),
        forall|k: Seq<char>| #[trigger]
            r@.dom().contains(k) ==> r@[k]@ == node(run::loaded_units(*psyfile)[k].depends_on),
{
    let mut out: NameMap<UnitDef> = NameMap::new();
    if let Ok(Some(p)) = psyfile {
        let n = p.units.len();
        let ghost names = p.units.names();
        let ghost units = run::loaded_units(*psyfile);
        proof {
            p.units.lemma_names();
            assert(names.take(0) =~= Seq::<Seq<char>>::empty());
        }
        let mut i: usize = 0;
        while i < n
            invariant
                i <= n,
                n == names.len(),
                names == p.units.names(),
                names.no_duplicates(),
                units == psyfile::units_view(p.units@),
                out.names() == names.take(i as int),
                forall|k: Seq<char>| #[trigger]
                    out@.dom().contains(k) <==> names.take(i as int).contains(k),
                forall|k: Seq<char>| #[trigger]
                    out@.dom().contains(k) ==> out@[k]@ == node(units[k].depends_on),
            decreases n - i,
        {
            let name = text::copy(p.units.name_at(i).as_str());
            let unit = p.units.value_at(i);
            let ghost key = name@;
            let ghost before = names.take(i as int);
            proof {
                assert(units[key] == unit@);
                if before.contains(key) {
                    let j = before.index_of(key);
                    assert(names[j] == names[i as int]);
                }
                assert(before.push(key) =~= names.take(i + 1));
            }
            out.insert(name, make_node(recipe::copy_deps(&unit.depends_on)));
            proof {
                out.lemma_names();
            }
            i += 1;
        }
        proof {
            assert(names.take(n as int) =~= names);
        }
    }
    out
}

/// Collects what depends on what.
fn build_graph(psyfile: &Result<Option<Psyfile>, String>, root: &SharedRoot) -> (r: Psyfile)
    ensures
        psyfile::units_view(r.units@) == graph(run::loaded_units(*psyfile), root@.table),
        r.units.names() == graph_names(loaded_names(*psyfile), root.names()),
{
    let mut out = unit_nodes(psyfile);
    let ghost units = run::loaded_units(*psyfile);
    let ghost unit_names = loaded_names(*psyfile);
    let ghost table = root@.table;
    let ghost names = root.names();
    let ghost g = graph(units, table);
    let n = root.process_count();
    proof {
        out.lemma_names();
        root.lemma_names();
        assert(unit_names + absent(names.take(0), unit_names) =~= unit_names);
        assert forall|k: Seq<char>| #[trigger] units.dom().contains(k) <==> unit_names.contains(
            k,
        ) by {
            assert(out@.dom().contains(k) <==> out.names().contains(k));
        }
    }
    let mut i: usize = 0;
    while i < n
        invariant
            i <= n,
            n == names.len(),
            names == root.names(),
            names.no_duplicates(),
            unit_names.no_duplicates(),
            table == root@.table,
            g == graph(units, table),
            forall|k: Seq<char>| #[trigger] table.dom().contains(k) <==> names.contains(k),
            forall|k: Seq<char>| #[trigger] units.dom().contains(k) <==> unit_names.contains(k),
            out.names() == unit_names + absent(names.take(i as int), unit_names),
            forall|k: Seq<char>| #[trigger] out@.dom().contains(k) <==> out.names().contains(k),
            forall|k: Seq<char>| #[trigger]
                out@.dom().contains(k) ==> g.dom().contains(k) && out@[k]@ == g[k],
        decreases n - i,
    {
        let ghost before = names.take(i as int);
        proof {
            assert(names.take(i + 1).drop_last() =~= before);
            assert(names.take(i + 1).last() == names[i as int]);
        }
        let e = root.nth(i);
        let name = text::copy(root.nth_name(i).as_str());
        let ghost key = name@;
        proof {
            if out.names().contains(key) && !unit_names.contains(key) {
                let all = out.names();
                let j = all.index_of(key);
                if j < unit_names.len() {
                    assert(unit_names[j] == key);
                } else {
                    assert(absent(before, unit_names)[j - unit_names.len()] == key);
                    lemma_absent(before, unit_names, key);
                    let q = before.index_of(key);
                    assert(names[q] == names[i as int]);
                }
            }
            if unit_names.contains(key) {
                let j = unit_names.index_of(key);
                assert(out.names()[j] == key);
            }
        }
        if !out.contains_key(name.as_str()) {
            out.insert(name, make_node(recipe::copy_deps(&e.recipe.depends_on)));
            proof {
                out.lemma_names();
                assert(out.names() =~= unit_names + absent(names.take(i + 1), unit_names));
            }
        }
        i += 1;
    }
    proof {
        assert(names.take(n as int) =~= names);
        lemma_graph_names(unit_names, names);
        assert(psyfile::units_view(out@) =~= g);
    }
    Psyfile { units: out }
}

fn keep_known(deps: &Vec<Dependency>, g: &Psyfile) -> (r: Vec<Dependency>)
    ensures
        psyfile::deps_view(r@) == among(
            psyfile::deps_view(deps@),
            psyfile::units_view(g.units@).dom(),
        ),
{
    let ghost all = psyfile::deps_view(deps@);
    let ghost known = psyfile::units_view(g.units@).dom();
    let mut out: Vec<Dependency> = Vec::new();
    let mut i: usize = 0;
    proof {
        assert(psyfile::deps_view(out@) =~= among(all.take(0), known));
    }
    while i < deps.len()
        invariant
            i <= deps.len(),
            all == psyfile::deps_view(deps@),
            known == psyfile::units_view(g.units@).dom(),
            psyfile::deps_view(out@) == among(all.take(i as int), known),
        decreases deps.len() - i,
    {
        proof {
            assert(all.take(i + 1).drop_last() =~= all.take(i as int));
            assert(all.take(i + 1).last() == deps@[i as int]@);
        }
        if g.units.contains_key(deps[i].name.as_str()) {
            let ghost before = out@;
            let d = deps[i].clone();
            let ghost dv = d@;
            out.push(d);
            proof {
                assert(psyfile::deps_view(out@) =~= psyfile::deps_view(before).push(dv));
            }
        }
        i += 1;
    }
    proof {
        assert(all.take(all.len() as int) =~= all);
    }
    out
}

/// Leaves out the names that nothing is known of.
fn close_graph(g: &Psyfile) -> (r: Psyfile)
    ensures
        psyfile::units_view(r.units@) == known_graph(psyfile::units_view(g.units@)),
{
    let ghost gv = psyfile::units_view(g.units@);
    let ghost names = g.units.names();
    let n = g.units.len();
    let mut out: NameMap<UnitDef> = NameMap::new();
    let mut i: usize = 0;
    while i < n
        invariant
            i <= n,
            n == names.len(),
            names == g.units.names(),
            gv == psyfile::units_view(g.units@),
            forall|k: Seq<char>| #[trigger]
                out@.dom().contains(k) <==> names.take(i as int).contains(k),
            forall|k: Seq<char>| #[trigger]
                out@.dom().contains(k) ==> out@[k]@ == node(among(gv[k].depends_on, gv.dom())),
        decreases n - i,
    {
        let name = text::copy(g.units.name_at(i).as_str());
        let ghost key = name@;
        let unit = g.units.value_at(i);
        proof {
            assert(gv[key] == unit@);
        }
        out.insert(name, make_node(keep_known(&unit.depends_on, g)));
        proof {
            let before = names.take(i as int);
            let longer = names.take(i + 1);
            assert forall|k: Seq<char>| #[trigger] out@.dom().contains(k) <==> longer.contains(
                k,
            ) by {
                if before.contains(k) {
                    let j = before.index_of(k);
                    assert(longer[j] == k);
                }
                assert(longer[i as int] == key);
                if longer.contains(k) && k != key {
                    let j = longer.index_of(k);
                    assert(before[j] == k);
                }
            }
        }
        i += 1;
    }
    proof {
        g.units.lemma_names();
        assert(names.take(n as int) =~= names);
        assert(psyfile::units_view(out@) =~= known_graph(gv));
    }
    Psyfile { units: out }
}

/// Lists what restarts after a process has: the units and the processes with
/// `restart` set in their dependency on it, and on through theirs. Each comes behind
/// those that it depends on.
pub fn cascade_restarts(
    psyfile: &Result<Option<Psyfile>, String>,
    root: &SharedRoot,
    restarted: &str,
) -> (r: Vec<String>)
    ensures
        text::texts(r@) == cascade_order(
            graph(run::loaded_units(*psyfile), root@.table),
            graph_names(loaded_names(*psyfile), root.names()),
            restarted@,
        ),
{
    let g = build_graph(psyfile, root);
    let hit = find_hits(&g, restarted);
    let ghost hv = text::texts(hit@);
    let closed = close_graph(&g);
    match order::resolve_start_order(&closed, &hit) {
        Err(_) => hit,
        Ok(o) => {
            let ghost ov = text::texts(o@);
            let mut out: Vec<String> = Vec::new();
            let mut i: usize = 0;
            proof {
                assert(text::texts(out@) =~= kept(ov.take(0), hv));
            }
            while i < o.len()
                invariant
                    i <= o.len(),
                    ov == text::texts(o@),
                    hv == text::texts(hit@),
                    text::texts(out@) == kept(ov.take(i as int), hv),
                decreases o.len() - i,
            {
                proof {
                    assert(ov.take(i + 1).drop_last() =~= ov.take(i as int));
                    assert(ov.take(i + 1).last() == o@[i as int]@);
                }
                if order::has(&hit, o[i].as_str()) {
                    let ghost before = out@;
                    let name = text::copy(o[i].as_str());
                    out.push(name);
                    proof {
                        assert(text::texts(out@) =~= text::texts(before).push(name@));
                    }
                }
                i += 1;
            }
            proof {
                assert(ov.take(ov.len() as int) =~= ov);
            }
            out
        },
    }
}

// ---------------------------------------------------------------------------
// Laws
// ---------------------------------------------------------------------------

proof fn lemma_hits(
    units: Map<Seq<char>, UnitView>,
    names: Seq<Seq<char>>,
    from: Seq<char>,
    k: Seq<char>,
)
    ensures
        hits(units, names, from).contains(k) <==> names.contains(k) && cascades(units, from, k),
    decreases names.len(),
{
    if names.len() > 0 {
        let rest = names.drop_last();
        let before = hits(units, rest, from);
        lemma_hits(units, rest, from, k);
        if rest.contains(k) {
            let i = rest.index_of(k);
            assert(names[i] == k);
        }
        if names.contains(k) && k != names.last() {
            let i = names.index_of(k);
            assert(rest[i] == k);
        }
        assert(names[names.len() - 1] == names.last());
        if cascades(units, from, names.last()) {
            let h = before.push(names.last());
            if before.contains(k) {
                let i = before.index_of(k);
                assert(h[i] == k);
            }
            assert(h[before.len() as int] == names.last());
            if h.contains(k) && k != names.last() {
                let i = h.index_of(k);
                assert(before[i] == k);
            }
        }
    }
}

/// Whether one name stands before another in a list.
spec fn stands_before(s: Seq<Seq<char>>, a: Seq<char>, b: Seq<char>) -> bool {
    exists|p: int, q: int| 0 <= p < q < s.len() && #[trigger] s[p] == a && #[trigger] s[q] == b
}

/// Names that are kept keep their order.
proof fn lemma_kept(s: Seq<Seq<char>>, list: Seq<Seq<char>>)
    ensures
        forall|k: Seq<char>| #[trigger]
            kept(s, list).contains(k) <==> s.contains(k) && list.contains(k),
        forall|i: int, j: int|
            0 <= i < j < kept(s, list).len() ==> #[trigger] stands_before(
                s,
                kept(s, list)[i],
                kept(s, list)[j],
            ),
    decreases s.len(),
{
    let r = kept(s, list);
    if s.len() > 0 {
        let rest = s.drop_last();
        let before = kept(rest, list);
        lemma_kept(rest, list);
        assert forall|k: Seq<char>| #[trigger] r.contains(k) <==> s.contains(k)
            && list.contains(k) by {
            assert(before.contains(k) <==> rest.contains(k) && list.contains(k));
            if rest.contains(k) {
                let i = rest.index_of(k);
                assert(s[i] == k);
            }
            if s.contains(k) && k != s.last() {
                let i = s.index_of(k);
                assert(rest[i] == k);
            }
            assert(s[s.len() - 1] == s.last());
            if list.contains(s.last()) {
                if before.contains(k) {
                    let i = before.index_of(k);
                    assert(r[i] == k);
                }
                assert(r[before.len() as int] == s.last());
                if r.contains(k) && k != s.last() {
                    let i = r.index_of(k);
                    assert(before[i] == k);
                }
            }
        }
        assert forall|i: int, j: int| 0 <= i < j < r.len() implies #[trigger] stands_before(
            s,
            r[i],
            r[j],
        ) by {
            if j < before.len() {
                assert(r[i] == before[i] && r[j] == before[j]);
                assert(stands_before(rest, before[i], before[j]));
                let (p, q) = choose|p: int, q: int|
                    0 <= p < q < rest.len() && #[trigger] rest[p] == before[i]
                        && #[trigger] rest[q] == before[j];
                assert(s[p] == r[i] && s[q] == r[j]);
            } else {
                assert(r[i] == before[i]);
                assert(before.contains(before[i]));
                assert(rest.contains(before[i]));
                let p = rest.index_of(before[i]);
                assert(s[p] == r[i]);
                assert(s[s.len() - 1] == r[j]);
            }
        }
    }
}

proof fn lemma_hits_distinct(
    units: Map<Seq<char>, UnitView>,
    names: Seq<Seq<char>>,
    from: Seq<char>,
)
    requires
        names.no_duplicates(),
    ensures
        hits(units, names, from).no_duplicates(),
    decreases names.len(),
{
    if names.len() > 0 {
        let rest = names.drop_last();
        lemma_hits_distinct(units, rest, from);
        lemma_hits(units, rest, from, names.last());
        if rest.contains(names.last()) {
            let i = rest.index_of(names.last());
            assert(names[i] == names[names.len() - 1]);
        }
    }
}

proof fn lemma_among(deps: Seq<DependencyView>, known: Set<Seq<char>>)
    ensures
        forall|i: int|
            0 <= i < among(deps, known).len() ==> known.contains(
                (#[trigger] among(deps, known)[i]).name,
            ) && deps.contains(among(deps, known)[i]),
        forall|d: DependencyView|
            deps.contains(d) && known.contains(d.name) ==> #[trigger] among(deps, known).contains(
                d,
            ),
    decreases deps.len(),
{
    if deps.len() > 0 {
        let rest = deps.drop_last();
        let before = among(rest, known);
        let r = among(deps, known);
        lemma_among(rest, known);
        assert(deps[deps.len() - 1] == deps.last());
        assert forall|i: int| 0 <= i < r.len() implies known.contains((#[trigger] r[i]).name)
            && deps.contains(r[i]) by {
            if i < before.len() {
                assert(r[i] == before[i]);
                let j = rest.index_of(before[i]);
                assert(deps[j] == r[i]);
            }
        }
        assert forall|d: DependencyView|
            deps.contains(d) && known.contains(d.name) implies #[trigger] r.contains(d) by {
            let j = deps.index_of(d);
            if j < deps.len() - 1 {
                assert(rest[j] == d);
                assert(before.contains(d));
                let q = before.index_of(d);
                assert(r[q] == d);
            } else {
                assert(r[before.len() as int] == d);
            }
        }
    }
}

/// Names that nothing is known of left out, something depends on the same known names.
proof fn lemma_known_deps(g: Map<Seq<char>, UnitView>, k: Seq<char>)
    requires
        g.dom().contains(k),
    ensures
        forall|d: Seq<char>| #[trigger]
            order::dep_list(known_graph(g)[k]).contains(d) <==> order::dep_list(g[k]).contains(d)
                && g.dom().contains(d),
{
    let deps = g[k].depends_on;
    let some = among(deps, g.dom());
    lemma_among(deps, g.dom());
    let all_names = order::dep_list(g[k]);
    let some_names = order::dep_list(known_graph(g)[k]);
    assert(known_graph(g)[k].depends_on == some);
    assert forall|d: Seq<char>| #[trigger] some_names.contains(d) <==> all_names.contains(d)
        && g.dom().contains(d) by {
        if some_names.contains(d) {
            let i = some_names.index_of(d);
            assert(some[i].name == d);
            let j = deps.index_of(some[i]);
            assert(all_names[j] == d);
        }
        if all_names.contains(d) && g.dom().contains(d) {
            let j = all_names.index_of(d);
            assert(deps[j].name == d);
            assert(deps.contains(deps[j]));
            assert(some.contains(deps[j]));
            let i = some.index_of(deps[j]);
            assert(some_names[i] == d);
        }
    }
}

/// Where nothing depends on itself in a circle, there is an order for whatever is to
/// restart.
proof fn lemma_known_order(g: Map<Seq<char>, UnitView>, hit: Seq<Seq<char>>)
    requires
        g.dom().finite(),
        forall|i: int| 0 <= i < hit.len() ==> g.dom().contains(#[trigger] hit[i]),
        forall|path: Seq<Seq<char>>| !#[trigger] order::is_cycle(g, path),
    ensures
        order::visit_all(known_graph(g), hit, Seq::empty(), Seq::empty()) is Ok,
{
    let h = known_graph(g);
    assert(h.dom() =~= g.dom());
    order::lemma_no_start_order(h, hit);
    if order::reaches_unknown(h, hit) {
        let x = choose|x: Seq<char>| #[trigger]
            order::reachable(h, hit, x) && !h.dom().contains(x);
        let path = choose|path: Seq<Seq<char>>| #[trigger]
            order::is_chain(h, path) && hit.contains(path.first()) && path.last() == x;
        if path.len() == 1 {
            let i = hit.index_of(path[0]);
            assert(hit[i] == path[0]);
        } else {
            let before = path[path.len() - 2];
            assert(h.dom().contains(path[path.len() - 2]));
            assert(order::dep_list(h[path[path.len() - 2]]).contains(path[path.len() - 2 + 1]));
            lemma_known_deps(g, before);
            assert(order::dep_list(h[before]).contains(x));
        }
    }
    if order::reaches_cycle(h, hit) {
        let path = choose|path: Seq<Seq<char>>| #[trigger]
            order::is_cycle(h, path) && order::reachable(h, hit, path.first());
        assert forall|i: int| 0 <= i < path.len() - 1 implies g.dom().contains(#[trigger] path[i])
            && order::dep_list(g[path[i]]).contains(path[i + 1]) by {
            lemma_known_deps(g, path[i]);
            assert(order::dep_list(h[path[i]]).contains(path[i + 1]));
        }
        assert(order::is_cycle(g, path));
    }
}

/// What holds of the units and processes that restart after another one has: they are
/// exactly those that the restart reaches, each once. Where nothing depends on itself
/// in a circle, each comes behind those that it depends on.
pub proof fn lemma_cascade_order(
    units: Map<Seq<char>, UnitView>,
    names: Seq<Seq<char>>,
    from: Seq<char>,
)
    requires
        names.no_duplicates(),
        units.dom().finite(),
        forall|k: Seq<char>| #[trigger] units.dom().contains(k) <==> names.contains(k),
    ensures
        forall|k: Seq<char>| #[trigger]
            cascade_order(units, names, from).contains(k) <==> cascades(units, from, k),
        cascade_order(units, names, from).no_duplicates(),
        (forall|path: Seq<Seq<char>>| !#[trigger] order::is_cycle(units, path)) ==> forall|
            i: int,
            j: int,
        |
            0 <= i < cascade_order(units, names, from).len() && 0 <= j < cascade_order(
                units,
                names,
                from,
            ).len() && order::dep_list(
                units[#[trigger] cascade_order(units, names, from)[i]],
            ).contains(#[trigger] cascade_order(units, names, from)[j]) ==> j < i,
{
    let hit = hits(units, names, from);
    let known = known_graph(units);
    let r = cascade_order(units, names, from);
    assert(known.dom() =~= units.dom());
    assert forall|i: int| 0 <= i < hit.len() implies units.dom().contains(#[trigger] hit[i]) by {
        lemma_hits(units, names, from, hit[i]);
        assert(hit.contains(hit[i]));
    }
    lemma_hits_distinct(units, names, from);
    assert forall|k: Seq<char>| cascades(units, from, k) implies names.contains(k) by {
        let n = choose|n: nat| reached(units, from, k, n);
        assert(reached(units, from, k, n));
    }
    if forall|path: Seq<Seq<char>>| !#[trigger] order::is_cycle(units, path) {
        lemma_known_order(units, hit);
    }
    match order::visit_all(known, hit, Seq::empty(), Seq::empty()) {
        Err(_) => {
            assert(r == hit);
            assert forall|k: Seq<char>| #[trigger] r.contains(k) <==> cascades(units, from, k) by {
                lemma_hits(units, names, from, k);
            }
        },
        Ok(o) => {
            order::lemma_start_order(known, hit, o);
            assert(r == kept(o, hit));
            lemma_kept(o, hit);
            assert forall|k: Seq<char>| #[trigger] r.contains(k) <==> cascades(units, from, k) by {
                lemma_hits(units, names, from, k);
                if cascades(units, from, k) {
                    let i = hit.index_of(k);
                    assert(hit[i] == k);
                    assert(o.contains(hit[i]));
                }
            }
            assert forall|i: int, j: int| 0 <= i < j < r.len() implies r[i] != r[j] by {
                assert(stands_before(o, kept(o, hit)[i], kept(o, hit)[j]));
                let (p, q) = choose|p: int, q: int|
                    0 <= p < q < o.len() && #[trigger] o[p] == r[i] && #[trigger] o[q] == r[j];
            }
            assert forall|i: int, j: int|
                0 <= i < r.len() && 0 <= j < r.len() && order::dep_list(
                    units[#[trigger] r[i]],
                ).contains(#[trigger] r[j]) implies j < i by {
                assert(r.contains(r[i]));
                assert(r.contains(r[j]));
                assert(o.contains(r[i]));
                let a = o.index_of(r[i]);
                assert(o[a] == r[i]);
                assert(units.dom().contains(r[i])) by {
                    assert(cascades(units, from, r[i]));
                }
                assert(units.dom().contains(r[j])) by {
                    assert(cascades(units, from, r[j]));
                }
                lemma_known_deps(units, r[i]);
                let deps = order::dep_list(known[o[a]]);
                assert(deps.contains(r[j]));
                let d = deps.index_of(r[j]);
                assert(deps[d] == r[j]);
                assert(o.take(a).contains(order::dep_list(known[o[a]])[d]));
                let b = o.take(a).index_of(r[j]);
                assert(o.take(a)[b] == r[j]);
                assert(o[b] == r[j]);
                if i < j {
                    assert(stands_before(o, kept(o, hit)[i], kept(o, hit)[j]));
                    let (p, q) = choose|p: int, q: int|
                        0 <= p < q < o.len() && #[trigger] o[p] == r[i] && #[trigger] o[q] == r[j];
                    assert(p == a);
                    assert(q == b);
                }
                if i == j {
                    assert(a == b);
                }
            }
        },
    }
}

/// A restart of a process reaches each process that was started to restart with it,
/// whether the Psyfile knows the one or the other, and nothing twice.
pub proof fn lemma_process_cascades(
    units: Map<Seq<char>, UnitView>,
    unit_names: Seq<Seq<char>>,
    table: Map<Seq<char>, EntryView>,
    process_names: Seq<Seq<char>>,
    from: Seq<char>,
    name: Seq<char>,
    i: int,
)
    requires
        unit_names.no_duplicates(),
        process_names.no_duplicates(),
        units.dom().finite(),
        table.dom().finite(),
        forall|k: Seq<char>| #[trigger] units.dom().contains(k) <==> unit_names.contains(k),
        forall|k: Seq<char>| #[trigger] table.dom().contains(k) <==> process_names.contains(k),
        table.dom().contains(name),
        !units.dom().contains(name),
        0 <= i < table[name].recipe.depends_on.len(),
        table[name].recipe.depends_on[i].restart,
        table[name].recipe.depends_on[i].name == from,
    ensures
        ({
            let r = cascade_order(
                graph(units, table),
                graph_names(unit_names, process_names),
                from,
            );
            r.contains(name) && r.no_duplicates()
        }),
{
    let g = graph(units, table);
    let names = graph_names(unit_names, process_names);
    lemma_graph_names(unit_names, process_names);
    assert(g.dom() =~= units.dom().union(table.dom()));
    assert(g[name].depends_on[i].restart);
    assert(follows(g[name], from));
    assert(reached(g, from, name, 1));
    assert(cascades(g, from, name));
    lemma_cascade_order(g, names, from);
}

} // verus!
