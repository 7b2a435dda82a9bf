//! Which units start before which, and what restarts with what.
use crate::order;
use crate::process::EntryView;
use crate::psyfile;
use crate::psyfile::{DependencyView, Psyfile, UnitView};
use crate::root::cascade;
use crate::root::run;
use crate::root::SharedRoot;
use crate::text;
use vstd::prelude::*;

verus! {

/// Whether a list of dependencies has one on a name.
pub open spec fn needs(deps: Seq<DependencyView>, name: Seq<char>) -> bool {
    exists|i: int| 0 <= i < deps.len() && (#[trigger] deps[i]).name == name
}

/// Whether a list of dependencies has one on a name that restarts with it.
pub open spec fn restarts_with(deps: Seq<DependencyView>, name: Seq<char>) -> bool {
    exists|i: int| 0 <= i < deps.len() && (#[trigger] deps[i]).name == name && deps[i].restart
}

proof fn lemma_needs(u: UnitView, name: Seq<char>)
    ensures
        needs(u.depends_on, name) <==> order::dep_list(u).contains(name),
{
    let l = order::dep_list(u);
    if needs(u.depends_on, name) {
        let i = choose|i: int|
            0 <= i < u.depends_on.len() && (#[trigger] u.depends_on[i]).name == name;
        assert(l[i] == name);
    }
    if l.contains(name) {
        let i = l.index_of(name);
        assert(u.depends_on[i].name == name);
    }
}

/// The order of a start has each unit that is asked for, each that one of them needs, and
/// none twice. A unit comes behind each that it needs.
pub proof fn lemma_start_order(
    p: Psyfile,
    names: Vec<String>,
    r: Result<Vec<String>, String>,
    i: int,
    dep: Seq<char>,
)
    requires
        call_ensures(order::resolve_start_order, (&p, &names), r),
        r is Ok,
    ensures
        text::texts(r->Ok_0@).no_duplicates(),
        0 <= i < names@.len() ==> text::texts(r->Ok_0@).contains(names@[i]@),
        0 <= i < r->Ok_0@.len() ==> p.units@.dom().contains(r->Ok_0@[i]@),
        0 <= i < r->Ok_0@.len() && needs(p.units@[r->Ok_0@[i]@]@.depends_on, dep)
            ==> text::texts(r->Ok_0@).take(i).contains(dep),
{
    let units = psyfile::units_view(p.units@);
    let o = text::texts(r->Ok_0@);
    let n = text::texts(names@);
    order::lemma_start_order(units, n, o);
    if 0 <= i < names@.len() {
        assert(n[i] == names@[i]@);
        assert(o.contains(n[i]));
    }
    if 0 <= i < o.len() {
        assert(o[i] == r->Ok_0@[i]@);
        assert(units.dom().contains(o[i]));
        assert(units[o[i]] == p.units@[o[i]]@);
        if needs(p.units@[o[i]]@.depends_on, dep) {
            lemma_needs(units[o[i]], dep);
            let deps = order::dep_list(units[o[i]]);
            let k = deps.index_of(dep);
            assert(deps[k] == dep);
        }
    }
}

/// Nothing starts that is neither asked for nor needed by something that starts.
pub proof fn lemma_nothing_else_starts(
    p: Psyfile,
    names: Vec<String>,
    r: Result<Vec<String>, String>,
    i: int,
)
    requires
        call_ensures(order::resolve_start_order, (&p, &names), r),
        r is Ok,
        0 <= i < r->Ok_0@.len(),
    ensures
        text::texts(names@).contains(r->Ok_0@[i]@) || exists|j: int|
            0 <= j < r->Ok_0@.len() && needs(
                (#[trigger] p.units@[r->Ok_0@[j]@])@.depends_on,
                r->Ok_0@[i]@,
            ),
{
    let units = psyfile::units_view(p.units@);
    let o = text::texts(r->Ok_0@);
    let n = text::texts(names@);
    order::lemma_start_order(units, n, o);
    assert(order::wanted(units, n, o, i));
    assert(o[i] == r->Ok_0@[i]@);
    if !n.contains(o[i]) {
        let j = choose|j: int|
            i < j < o.len() && order::dep_list(units[#[trigger] o[j]]).contains(o[i]);
        assert(o[j] == r->Ok_0@[j]@);
        assert(units.dom().contains(o[j]));
        assert(units[o[j]] == p.units@[o[j]]@);
        lemma_needs(units[o[j]], o[i]);
        assert(needs(p.units@[r->Ok_0@[j]@]@.depends_on, r->Ok_0@[i]@));
    }
}

/// A Psyfile is accepted only where each name is allowed, each dependency is a unit, and no
/// units need each other in a circle.
pub proof fn lemma_valid(
    p: Psyfile,
    r: Result<(), String>,
    k: Seq<char>,
    dep: Seq<char>,
    path: Seq<Seq<char>>,
)
    requires
        call_ensures(order::validate, (&p,), r),
        r is Ok,
    ensures
        p.units@.dom().contains(k) ==> k != "main"@ && 0 < k.len() <= 63,
        p.units@.dom().contains(k) && needs(p.units@[k]@.depends_on, dep)
            ==> p.units@.dom().contains(dep),
        path.len() >= 2 && (forall|i: int|
            0 <= i < path.len() - 1 ==> p.units@.dom().contains(#[trigger] path[i]) && needs(
                p.units@[path[i]]@.depends_on,
                path[i + 1],
            )) ==> path.first() != path.last(),
{
    let units = psyfile::units_view(p.units@);
    p.units.lemma_names();
    order::lemma_validated(units, p.units.names());
    if p.units@.dom().contains(k) {
        assert(units.dom().contains(k));
        assert(units[k] == p.units@[k]@);
        lemma_needs(units[k], dep);
        if needs(units[k].depends_on, dep) {
            let deps = order::dep_list(units[k]);
            let j = deps.index_of(dep);
            assert(deps[j] == dep);
        }
    }
    if path.len() >= 2 && (forall|i: int|
        0 <= i < path.len() - 1 ==> p.units@.dom().contains(#[trigger] path[i]) && needs(
            p.units@[path[i]]@.depends_on,
            path[i + 1],
        )) {
        assert forall|i: int| 0 <= i < path.len() - 1 implies units.dom().contains(
            #[trigger] path[i],
        ) && order::dep_list(units[path[i]]).contains(path[i + 1]) by {
            assert(units[path[i]] == p.units@[path[i]]@);
            lemma_needs(units[path[i]], path[i + 1]);
        }
        assert(!order::is_cycle(units, path));
    }
}

// ---------------------------------------------------------------------------
// Cascades
// ---------------------------------------------------------------------------

/// What a name depends on: a unit as the Psyfile says, any other process as the request
/// that started it said.
pub open spec fn dependencies_of(
    units: Map<Seq<char>, UnitView>,
    table: Map<Seq<char>, EntryView>,
    k: Seq<char>,
) -> Seq<DependencyView> {
    if units.dom().contains(k) {
        units[k].depends_on
    } else {
        table[k].recipe.depends_on
    }
}

/// What restarts after a process has is exactly what depends, with a restart, on it or on
/// something else that restarts; each name comes once.
pub proof fn lemma_cascade(
    psyfile: Result<Option<Psyfile>, String>,
    root: SharedRoot,
    from: &str,
    r: Vec<String>,
    k: Seq<char>,
    via: Seq<char>,
)
    requires
        call_ensures(cascade::cascade_restarts, (&psyfile, &root, from), r),
        cascade::loaded_names(psyfile).no_duplicates(),
        root.names().no_duplicates(),
    ensures
        ({
            let units = run::loaded_units(psyfile);
            let known = units.dom().contains(k) || root@.table.dom().contains(k);
            let deps = dependencies_of(units, root@.table, k);
            let hit = text::texts(r@);
            &&& hit.no_duplicates()
            &&& known && restarts_with(deps, from@) ==> hit.contains(k)
            &&& known && restarts_with(deps, via) && hit.contains(via) ==> hit.contains(k)
            &&& hit.contains(k) ==> known && exists|i: int|
                0 <= i < deps.len() && (#[trigger] deps[i]).restart && (deps[i].name == from@
                    || hit.contains(deps[i].name))
        }),
{
    let units = run::loaded_units(psyfile);
    let g = cascade::graph(units, root@.table);
    let names = cascade::graph_names(cascade::loaded_names(psyfile), root.names());
    let hit = text::texts(r@);
    lemma_graph(psyfile, root);
    cascade::lemma_cascade_order(g, names, from@);
    let deps = dependencies_of(units, root@.table, k);
    let known = units.dom().contains(k) || root@.table.dom().contains(k);
    if known {
        assert(g.dom().contains(k));
        assert(g[k].depends_on == deps);
        if restarts_with(deps, from@) {
            assert(cascade::follows(g[k], from@));
            assert(cascade::reached(g, from@, k, 1));
            assert(cascade::cascades(g, from@, k));
        }
        if restarts_with(deps, via) && hit.contains(via) {
            let n = choose|n: nat| cascade::reached(g, from@, via, n);
            let i = choose|i: int|
                0 <= i < deps.len() && (#[trigger] deps[i]).name == via && deps[i].restart;
            assert(g[k].depends_on[i].restart);
            assert(cascade::reached(g, from@, k, n + 1));
            assert(cascade::cascades(g, from@, k));
        }
    }
    if hit.contains(k) {
        let n = choose|n: nat| cascade::reached(g, from@, k, n);
        assert(cascade::reached(g, from@, k, n));
        if cascade::follows(g[k], from@) {
            let i = choose|i: int|
                0 <= i < g[k].depends_on.len() && (#[trigger] g[k].depends_on[i]).restart
                    && g[k].depends_on[i].name == from@;
            assert(deps[i].restart && deps[i].name == from@);
        } else {
            let i = choose|i: int|
                0 <= i < g[k].depends_on.len() && (#[trigger] g[k].depends_on[i]).restart
                    && cascade::reached(g, from@, g[k].depends_on[i].name, (n - 1) as nat);
            assert(cascade::cascades(g, from@, deps[i].name));
            assert(deps[i].restart && hit.contains(deps[i].name));
        }
    }
}

proof fn lemma_graph(psyfile: Result<Option<Psyfile>, String>, root: SharedRoot)
    requires
        cascade::loaded_names(psyfile).no_duplicates(),
        root.names().no_duplicates(),
    ensures
        ({
            let g = cascade::graph(run::loaded_units(psyfile), root@.table);
            let names = cascade::graph_names(cascade::loaded_names(psyfile), root.names());
            &&& names.no_duplicates()
            &&& g.dom().finite()
            &&& forall|k: Seq<char>| #[trigger] g.dom().contains(k) <==> names.contains(k)
        }),
{
    let units = run::loaded_units(psyfile);
    let unit_names = cascade::loaded_names(psyfile);
    let g = cascade::graph(units, root@.table);
    let names = cascade::graph_names(unit_names, root.names());
    root.lemma_names();
    if let Ok(Some(p)) = psyfile {
        p.units.lemma_names();
    }
    cascade::lemma_graph_names(unit_names, root.names());
    assert(g.dom() =~= names.to_set());
}

/// Units that are valid have no circle; one that is found is an error.
pub proof fn lemma_circles(p: Psyfile, valid: Result<(), String>, r: Result<(), String>)
    requires
        call_ensures(order::validate, (&p,), valid),
        call_ensures(order::detect_cycles, (&p,), r),
    ensures
        valid is Ok ==> r is Ok,
        r is Err ==> valid is Err,
{
}

} // verus!
