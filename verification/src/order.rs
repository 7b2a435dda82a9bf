//! Dependencies between units: checking them, and the order in which units start.
use crate::marks;
use crate::process;
use crate::psyfile::{Psyfile, UnitDef, UnitView, DependencyView};
use crate::psyfile;
use crate::text;
use vstd::prelude::*;

verus! {

/// The names that a unit depends on, in order.
pub open spec fn dep_list(u: UnitView) -> Seq<Seq<char>> {
    u.depends_on.map_values(|d: DependencyView| d.name)
}

/// Whether a unit can start within `n` rounds, where in each round a unit starts
/// once all its dependencies are units that have started.
pub open spec fn settles(units: Map<Seq<char>, UnitView>, name: Seq<char>, n: nat) -> bool
    decreases n,
{
    &&& n > 0
    &&& units.dom().contains(name)
    &&& forall|i: int|
        0 <= i < dep_list(units[name]).len() ==> settles(
            units,
            #[trigger] dep_list(units[name])[i],
            (n - 1) as nat,
        )
}

/// Whether a unit can ever start.
pub open spec fn settled(units: Map<Seq<char>, UnitView>, name: Seq<char>) -> bool {
    exists|n: nat| settles(units, name, n)
}

/// A unit that starts within some rounds starts within any larger number of them.
pub proof fn lemma_settles_monotone(
    units: Map<Seq<char>, UnitView>,
    name: Seq<char>,
    n: nat,
    m: nat,
)
    requires
        settles(units, name, n),
        n <= m,
    ensures
        settles(units, name, m),
    decreases n,
{
    let deps = dep_list(units[name]);
    assert forall|i: int| 0 <= i < deps.len() implies settles(
        units,
        #[trigger] deps[i],
        (m - 1) as nat,
    ) by {
        lemma_settles_monotone(units, deps[i], (n - 1) as nat, (m - 1) as nat);
    }
}

/// Finitely many units that can all start do so within a common number of rounds.
proof fn lemma_common_rounds(units: Map<Seq<char>, UnitView>, names: Seq<Seq<char>>) -> (n: nat)
    requires
        forall|i: int| 0 <= i < names.len() ==> settled(units, #[trigger] names[i]),
    ensures
        forall|i: int| 0 <= i < names.len() ==> settles(units, #[trigger] names[i], n),
    decreases names.len(),
{
    if names.len() == 0 {
        0
    } else {
        let rest = names.drop_last();
        assert forall|i: int| 0 <= i < rest.len() implies settled(units, #[trigger] rest[i]) by {
            assert(rest[i] == names[i]);
        }
        let a = lemma_common_rounds(units, rest);
        assert(settled(units, names[names.len() - 1]));
        let b = choose|b: nat| settles(units, names.last(), b);
        let n = a + b;
        assert forall|i: int| 0 <= i < names.len() implies settles(
            units,
            #[trigger] names[i],
            n,
        ) by {
            if i < rest.len() {
                assert(rest[i] == names[i]);
                lemma_settles_monotone(units, names[i], a, n);
            } else {
                lemma_settles_monotone(units, names[i], b, n);
            }
        }
        n
    }
}

/// A unit can start where all its dependencies can.
proof fn lemma_settled_by_deps(units: Map<Seq<char>, UnitView>, name: Seq<char>)
    requires
        units.dom().contains(name),
        forall|i: int|
            0 <= i < dep_list(units[name]).len() ==> settled(
                units,
                #[trigger] dep_list(units[name])[i],
            ),
    ensures
        settled(units, name),
{
    let n = lemma_common_rounds(units, dep_list(units[name]));
    assert(settles(units, name, n + 1));
}

/// The units that can never start, in the order of the given names.
pub open spec fn stuck(units: Map<Seq<char>, UnitView>, names: Seq<Seq<char>>) -> Seq<Seq<char>>
    decreases names.len(),
{
    if names.len() == 0 {
        Seq::empty()
    } else if settled(units, names.last()) {
        stuck(units, names.drop_last())
    } else {
        stuck(units, names.drop_last()).push(names.last())
    }
}

/// The message for units that depend on each other in a circle.
pub open spec fn cycle_error(names: Seq<Seq<char>>) -> Seq<char> {
    "circular dependency detected among: "@ + text::joined(names, ", "@)
}

/// Units that each have an unmarked dependency never start.
proof fn lemma_unmarked(
    units: Map<Seq<char>, UnitView>,
    names: Seq<Seq<char>>,
    done: Seq<bool>,
    name: Seq<char>,
    n: nat,
)
    requires
        done.len() == names.len(),
        names.no_duplicates(),
        forall|k: Seq<char>| #[trigger] units.dom().contains(k) <==> names.contains(k),
        !marks::marked(names, done, name),
        forall|i: int|
            0 <= i < names.len() && !#[trigger] done[i] ==> exists|j: int|
                0 <= j < dep_list(units[names[i]]).len() && !marks::marked(
                    names,
                    done,
                    #[trigger] dep_list(units[names[i]])[j],
                ),
    ensures
        !settles(units, name, n),
    decreases n,
{
    if units.dom().contains(name) && n > 0 {
        assert(names.contains(name));
        let i = names.index_of(name);
        assert(names[i] == name);
        assert(!done[i]);
        let j = choose|j: int|
            0 <= j < dep_list(units[names[i]]).len() && !marks::marked(
                names,
                done,
                #[trigger] dep_list(units[names[i]])[j],
            );
        lemma_unmarked(units, names, done, dep_list(units[name])[j], (n - 1) as nat);
    }
}

/// Tests whether all dependencies of a unit are marked units.
fn deps_marked(p: &Psyfile, unit: &UnitDef, done: &Vec<bool>) -> (r: bool)
    requires
        done@.len() == p.units.names().len(),
        p.units.names().no_duplicates(),
    ensures
        r == forall|j: int|
            0 <= j < dep_list(unit@).len() ==> marks::marked(
                p.units.names(),
                done@,
                #[trigger] dep_list(unit@)[j],
            ),
{
    let ghost names = p.units.names();
    let mut j: usize = 0;
    while j < unit.depends_on.len()
        invariant
            j <= unit.depends_on.len(),
            names == p.units.names(),
            names.no_duplicates(),
            done@.len() == names.len(),
            forall|k: int|
                0 <= k < j ==> marks::marked(names, done@, #[trigger] dep_list(unit@)[k]),
        decreases unit.depends_on.len() - j,
    {
        let ghost dep = dep_list(unit@)[j as int];
        proof {
            assert(dep == unit.depends_on@[j as int].name@);
        }
        match p.units.position(unit.depends_on[j].name.as_str()) {
            Some(k) => {
                if !done[k] {
                    proof {
                        assert forall|q: int| 0 <= q < names.len() && names[q] == dep implies !(
                        #[trigger] done@[q]) by {
                            assert(q == k);
                        }
                        assert(!marks::marked(names, done@, dep_list(unit@)[j as int]));
                    }
                    return false;
                }
                proof {
                    assert(done@[k as int]);
                }
            },
            None => {
                proof {
                    assert(!marks::marked(names, done@, dep_list(unit@)[j as int]));
                }
                return false;
            },
        }
        j += 1;
    }
    true
}

/// Rejects units that depend on each other in a circle: every unit must be able
/// to start once its dependencies have.
pub fn detect_cycles(psyfile: &Psyfile) -> (r: Result<(), String>)
    ensures
        r is Ok <==> stuck(psyfile::units_view(psyfile.units@), psyfile.units.names()).len() == 0,
        r matches Err(e) ==> e@ == cycle_error(
            stuck(psyfile::units_view(psyfile.units@), psyfile.units.names()),
        ),
{
    let ghost units = psyfile::units_view(psyfile.units@);
    let ghost names = psyfile.units.names();
    let n = psyfile.units.len();
    proof {
        psyfile.units.lemma_names();
    }
    let mut done = marks::none_marked(n);
    let mut changed = true;
    while changed
        invariant
            n == names.len(),
            names == psyfile.units.names(),
            names.no_duplicates(),
            units == psyfile::units_view(psyfile.units@),
            forall|k: Seq<char>| #[trigger] units.dom().contains(k) <==> names.contains(k),
            done@.len() == n,
            forall|k: int| 0 <= k < n && #[trigger] done@[k] ==> settled(units, names[k]),
            !changed ==> forall|i: int|
                0 <= i < n && !#[trigger] done@[i] ==> exists|j: int|
                    0 <= j < dep_list(units[names[i]]).len() && !marks::marked(
                        names,
                        done@,
                        #[trigger] dep_list(units[names[i]])[j],
                    ),
        decreases marks::count_open(done@), (if changed { 1nat } else { 0nat }),
    {
        changed = false;
        let ghost start = done@;
        let mut i: usize = 0;
        while i < n
            invariant
                i <= n,
                n == names.len(),
                names == psyfile.units.names(),
                names.no_duplicates(),
                units == psyfile::units_view(psyfile.units@),
                forall|k: Seq<char>| #[trigger] units.dom().contains(k) <==> names.contains(k),
                done@.len() == n,
                forall|k: int| 0 <= k < n && #[trigger] done@[k] ==> settled(units, names[k]),
                !changed ==> done@ == start,
                marks::count_open(done@) <= marks::count_open(start),
                changed ==> marks::count_open(done@) < marks::count_open(start),
                !changed ==> forall|q: int|
                    0 <= q < i && !#[trigger] done@[q] ==> exists|j: int|
                        0 <= j < dep_list(units[names[q]]).len() && !marks::marked(
                            names,
                            done@,
                            #[trigger] dep_list(units[names[q]])[j],
                        ),
            decreases n - i,
        {
            if !done[i] {
                let unit = psyfile.units.value_at(i);
                proof {
                    assert(units[names[i as int]] == unit@);
                }
                if deps_marked(psyfile, unit, &done) {
                    proof {
                        let deps = dep_list(unit@);
                        assert forall|j: int| 0 <= j < deps.len() implies settled(
                            units,
                            #[trigger] deps[j],
                        ) by {
                            assert(marks::marked(names, done@, deps[j]));
                        }
                        assert(names.contains(names[i as int]));
                        lemma_settled_by_deps(units, names[i as int]);
                        marks::lemma_count_open(done@, i as int);
                    }
                    done.set(i, true);
                    changed = true;
                }
            }
            i += 1;
        }
    }
    let mut in_cycle: Vec<String> = Vec::new();
    let mut i: usize = 0;
    while i < n
        invariant
            i <= n,
            n == names.len(),
            names == psyfile.units.names(),
            names.no_duplicates(),
            units == psyfile::units_view(psyfile.units@),
            forall|k: Seq<char>| #[trigger] units.dom().contains(k) <==> names.contains(k),
            done@.len() == n,
            forall|k: int| 0 <= k < n && #[trigger] done@[k] ==> settled(units, names[k]),
            forall|i: int|
                0 <= i < n && !#[trigger] done@[i] ==> exists|j: int|
                    0 <= j < dep_list(units[names[i]]).len() && !marks::marked(
                        names,
                        done@,
                        #[trigger] dep_list(units[names[i]])[j],
                    ),
            text::texts(in_cycle@) == stuck(units, names.take(i as int)),
        decreases n - i,
    {
        let ghost shorter = names.take(i + 1);
        proof {
            assert(shorter.drop_last() =~= names.take(i as int));
            assert(shorter.last() == names[i as int]);
        }
        if !done[i] {
            let name = text::copy(psyfile.units.name_at(i).as_str());
            let ghost before = in_cycle@;
            in_cycle.push(name);
            proof {
                assert forall|m: nat| !settles(units, names[i as int], m) by {
                    assert forall|q: int|
                        0 <= q < names.len() && names[q] == names[i as int] implies !(
                    #[trigger] done@[q]) by {
                        assert(q == i);
                    }
                    lemma_unmarked(units, names, done@, names[i as int], m);
                }
                assert(text::texts(in_cycle@) =~= text::texts(before).push(name@));
            }
        }
        i += 1;
    }
    proof {
        assert(names.take(n as int) =~= names);
        assert(text::texts(in_cycle@).len() == in_cycle@.len());
    }
    if in_cycle.len() > 0 {
        let list = text::join(&in_cycle, ", ");
        Err(text::concat2("circular dependency detected among: ", list.as_str()))
    } else {
        Ok(())
    }
}

/// A chain of dependencies that comes back to where it began.
pub open spec fn is_cycle(units: Map<Seq<char>, UnitView>, path: Seq<Seq<char>>) -> bool {
    &&& path.len() >= 2
    &&& path.first() == path.last()
    &&& forall|i: int|
        0 <= i < path.len() - 1 ==> units.dom().contains(#[trigger] path[i]) && dep_list(
            units[path[i]],
        ).contains(path[i + 1])
}

/// No unit on a circle of dependencies can ever start.
pub proof fn lemma_cycle_never_settles(
    units: Map<Seq<char>, UnitView>,
    path: Seq<Seq<char>>,
    at: int,
    n: nat,
)
    requires
        is_cycle(units, path),
        0 <= at < path.len(),
    ensures
        !settles(units, path[at], n),
    decreases n,
{
    if n > 0 {
        let here = if at == path.len() - 1 {
            0
        } else {
            at
        };
        assert(path[here] == path[at]);
        lemma_cycle_never_settles(units, path, here + 1, (n - 1) as nat);
        let deps = dep_list(units[path[here]]);
        let j = deps.index_of(path[here + 1]);
        assert(deps[j] == path[here + 1]);
    }
}

/// Whether every dependency of every unit is a unit.
pub open spec fn closed_under_deps(units: Map<Seq<char>, UnitView>) -> bool {
    forall|k: Seq<char>, i: int|
        units.dom().contains(k) && 0 <= i < dep_list(units[k]).len() ==> units.dom().contains(
            #[trigger] dep_list(units[k])[i],
        )
}

/// From a unit that cannot start, a chain of dependencies of any length leads on.
proof fn lemma_endless_chain(units: Map<Seq<char>, UnitView>, name: Seq<char>, k: nat) -> (w: Seq<
    Seq<char>,
>)
    requires
        closed_under_deps(units),
        units.dom().contains(name),
        !settled(units, name),
        k > 0,
    ensures
        w.len() == k,
        forall|i: int|
            0 <= i < w.len() ==> units.dom().contains(#[trigger] w[i]) && !settled(units, w[i]),
        forall|i: int|
            0 <= i < w.len() - 1 ==> dep_list(units[#[trigger] w[i]]).contains(w[i + 1]),
    decreases k,
{
    if k == 1 {
        seq![name]
    } else {
        let w = lemma_endless_chain(units, name, (k - 1) as nat);
        let last = w[k - 2];
        assert(units.dom().contains(last) && !settled(units, last));
        let deps = dep_list(units[last]);
        if forall|i: int| 0 <= i < deps.len() ==> settled(units, #[trigger] deps[i]) {
            lemma_settled_by_deps(units, last);
        }
        let j = choose|j: int| 0 <= j < deps.len() && !settled(units, #[trigger] deps[j]);
        let r = w.push(deps[j]);
        assert(units.dom().contains(dep_list(units[last])[j]));
        assert forall|i: int| 0 <= i < r.len() implies units.dom().contains(#[trigger] r[i])
            && !settled(units, r[i]) by {
            if i < w.len() {
                assert(r[i] == w[i]);
            }
        }
        assert forall|i: int| 0 <= i < r.len() - 1 implies dep_list(
            units[#[trigger] r[i]],
        ).contains(r[i + 1]) by {
            assert(r[i] == w[i]);
            if i + 1 < w.len() {
                assert(r[i + 1] == w[i + 1]);
            } else {
                assert(deps.contains(deps[j]));
            }
        }
        r
    }
}

/// Where a unit cannot start although every dependency is a unit, some units
/// depend on each other in a circle.
pub proof fn lemma_stuck_means_cycle(units: Map<Seq<char>, UnitView>, name: Seq<char>) -> (path:
    Seq<Seq<char>>)
    requires
        closed_under_deps(units),
        units.dom().finite(),
        units.dom().contains(name),
        !settled(units, name),
    ensures
        is_cycle(units, path),
{
    let n = units.dom().len();
    let w = lemma_endless_chain(units, name, n + 1);
    if w.no_duplicates() {
        w.unique_seq_to_set();
        assert(w.to_set().subset_of(units.dom())) by {
            assert forall|x: Seq<char>| w.to_set().contains(x) implies units.dom().contains(x) by {
                let i = w.index_of(x);
                assert(w[i] == x);
            }
        }
        vstd::set_lib::lemma_len_subset(w.to_set(), units.dom());
    }
    let (i, j) = choose|i: int, j: int| 0 <= i < j < w.len() && #[trigger] w[i] == #[trigger] w[j];
    let path = w.subrange(i, j + 1);
    assert forall|q: int| 0 <= q < path.len() - 1 implies units.dom().contains(#[trigger] path[q])
        && dep_list(units[path[q]]).contains(path[q + 1]) by {
        assert(path[q] == w[i + q]);
        assert(path[q + 1] == w[i + q + 1]);
    }
    path
}

// ---------------------------------------------------------------------------
// Validation
// ---------------------------------------------------------------------------

/// What is wrong with the first bad name of a list.
pub open spec fn name_error(names: Seq<Seq<char>>) -> Option<Seq<char>>
    decreases names.len(),
{
    if names.len() == 0 {
        None
    } else if names[0] == "main"@ {
        Some("unit name 'main' is reserved"@)
    } else if !process::valid_name(names[0]) {
        Some(
            "invalid unit name '"@ + names[0]
                + "': must match [a-zA-Z0-9][a-zA-Z0-9_-]{0,62}"@,
        )
    } else {
        name_error(names.skip(1))
    }
}

/// The first dependency in a list that is not a unit.
pub open spec fn unknown_dep(
    units: Map<Seq<char>, UnitView>,
    deps: Seq<Seq<char>>,
) -> Option<Seq<char>>
    decreases deps.len(),
{
    if deps.len() == 0 {
        None
    } else if !units.dom().contains(deps[0]) {
        Some(deps[0])
    } else {
        unknown_dep(units, deps.skip(1))
    }
}

/// What is wrong with the first unit of a list that depends on something that
/// is not a unit.
pub open spec fn reference_error(
    units: Map<Seq<char>, UnitView>,
    names: Seq<Seq<char>>,
) -> Option<Seq<char>>
    decreases names.len(),
{
    if names.len() == 0 {
        None
    } else {
        match unknown_dep(units, dep_list(units[names[0]])) {
            Some(d) => Some(
                psyfile::unit_error_on(
                    names[0],
                    "': depends_on references unknown unit '"@,
                    d,
                    "'"@,
                ),
            ),
            None => reference_error(units, names.skip(1)),
        }
    }
}

/// What is wrong with the units of a Psyfile, taken in the given order: a bad
/// name, a dependency that is not a unit, or a circle.
pub open spec fn validation_error(
    units: Map<Seq<char>, UnitView>,
    names: Seq<Seq<char>>,
) -> Option<Seq<char>> {
    match name_error(names) {
        Some(e) => Some(e),
        None => match reference_error(units, names) {
            Some(e) => Some(e),
            None => if stuck(units, names).len() > 0 {
                Some(cycle_error(stuck(units, names)))
            } else {
                None
            },
        },
    }
}

fn find_unknown_dep<'a>(p: &Psyfile, unit: &'a UnitDef) -> (r: Option<&'a String>)
    ensures
        match r {
            Some(d) => unknown_dep(psyfile::units_view(p.units@), dep_list(unit@)) == Some(d@),
            None => unknown_dep(psyfile::units_view(p.units@), dep_list(unit@)) is None,
        },
{
    let ghost units = psyfile::units_view(p.units@);
    let ghost deps = dep_list(unit@);
    let mut j: usize = 0;
    proof {
        assert(deps.skip(0) =~= deps);
    }
    while j < unit.depends_on.len()
        invariant
            j <= unit.depends_on.len(),
            units == psyfile::units_view(p.units@),
            deps == dep_list(unit@),
            unknown_dep(units, deps.skip(j as int)) == unknown_dep(units, deps),
        decreases unit.depends_on.len() - j,
    {
        proof {
            assert(deps.skip(j as int)[0] == unit.depends_on@[j as int].name@);
            assert(deps.skip(j as int).skip(1) =~= deps.skip(j + 1));
        }
        if !p.units.contains_key(unit.depends_on[j].name.as_str()) {
            return Some(&unit.depends_on[j].name);
        }
        j += 1;
    }
    None
}

/// Checks the units of a Psyfile: their names, their references, and that no
/// units depend on each other in a circle.
pub fn validate(psyfile: &Psyfile) -> (r: Result<(), String>)
    ensures
        match r {
            Ok(_) => validation_error(
                psyfile::units_view(psyfile.units@),
                psyfile.units.names(),
            ) is None,
            Err(e) => validation_error(
                psyfile::units_view(psyfile.units@),
                psyfile.units.names(),
            ) == Some(e@),
        },
{
    let ghost units = psyfile::units_view(psyfile.units@);
    let ghost names = psyfile.units.names();
    let n = psyfile.units.len();
    let mut i: usize = 0;
    proof {
        assert(names.skip(0) =~= names);
        reveal_strlit("main");
    }
    while i < n
        invariant
            i <= n,
            n == names.len(),
            names == psyfile.units.names(),
            name_error(names.skip(i as int)) == name_error(names),
        decreases n - i,
    {
        let name = psyfile.units.name_at(i);
        proof {
            assert(names.skip(i as int)[0] == names[i as int]);
            assert(names.skip(i as int).skip(1) =~= names.skip(i + 1));
        }
        if text::same(name.as_str(), "main") {
            return Err(text::copy("unit name 'main' is reserved"));
        }
        if !process::validate_name(name.as_str()) {
            return Err(
                text::concat3(
                    "invalid unit name '",
                    name.as_str(),
                    "': must match [a-zA-Z0-9][a-zA-Z0-9_-]{0,62}",
                ),
            );
        }
        i += 1;
    }
    let mut i: usize = 0;
    while i < n
        invariant
            i <= n,
            n == names.len(),
            names == psyfile.units.names(),
            units == psyfile::units_view(psyfile.units@),
            name_error(names) is None,
            reference_error(units, names.skip(i as int)) == reference_error(units, names),
        decreases n - i,
    {
        let name = psyfile.units.name_at(i);
        let unit = psyfile.units.value_at(i);
        proof {
            assert(names.skip(i as int)[0] == names[i as int]);
            assert(names.skip(i as int).skip(1) =~= names.skip(i + 1));
            assert(units[names[i as int]] == unit@);
        }
        match find_unknown_dep(psyfile, unit) {
            Some(d) => {
                return Err(
                    psyfile::unit_err_on(
                        name.as_str(),
                        "': depends_on references unknown unit '",
                        d.as_str(),
                        "'",
                    ),
                );
            },
            None => {},
        }
        i += 1;
    }
    detect_cycles(psyfile)
}

/// In a list of units without unknown references, every dependency is a unit.
proof fn lemma_no_reference_error(
    units: Map<Seq<char>, UnitView>,
    names: Seq<Seq<char>>,
    i: int,
    j: int,
)
    requires
        reference_error(units, names) is None,
        0 <= i < names.len(),
        0 <= j < dep_list(units[names[i]]).len(),
    ensures
        units.dom().contains(dep_list(units[names[i]])[j]),
    decreases names.len(),
{
    if i == 0 {
        lemma_no_unknown_dep(units, dep_list(units[names[0]]), j);
    } else {
        assert(names.skip(1)[i - 1] == names[i]);
        lemma_no_reference_error(units, names.skip(1), i - 1, j);
    }
}

proof fn lemma_no_unknown_dep(units: Map<Seq<char>, UnitView>, deps: Seq<Seq<char>>, j: int)
    requires
        unknown_dep(units, deps) is None,
        0 <= j < deps.len(),
    ensures
        units.dom().contains(deps[j]),
    decreases deps.len(),
{
    if j > 0 {
        assert(deps.skip(1)[j - 1] == deps[j]);
        lemma_no_unknown_dep(units, deps.skip(1), j - 1);
    }
}

proof fn lemma_none_stuck(units: Map<Seq<char>, UnitView>, names: Seq<Seq<char>>, i: int)
    requires
        stuck(units, names).len() == 0,
        0 <= i < names.len(),
    ensures
        settled(units, names[i]),
    decreases names.len(),
{
    if i < names.len() - 1 {
        assert(names.drop_last()[i] == names[i]);
        lemma_none_stuck(units, names.drop_last(), i);
    }
}

proof fn lemma_good_name(names: Seq<Seq<char>>, i: int)
    requires
        name_error(names) is None,
        0 <= i < names.len(),
    ensures
        process::valid_name(names[i]),
        names[i] != "main"@,
    decreases names.len(),
{
    if i > 0 {
        assert(names.skip(1)[i - 1] == names[i]);
        lemma_good_name(names.skip(1), i - 1);
    }
}

/// What holds of every unit of a Psyfile that passes validation: its name is
/// valid and not reserved, its dependencies are units, and it can start. So no
/// circle of dependencies passes.
pub proof fn lemma_validated(units: Map<Seq<char>, UnitView>, names: Seq<Seq<char>>)
    requires
        validation_error(units, names) is None,
        forall|k: Seq<char>| #[trigger] units.dom().contains(k) <==> names.contains(k),
    ensures
        forall|k: Seq<char>| #[trigger]
            units.dom().contains(k) ==> process::valid_name(k) && k != "main"@ && settled(
                units,
                k,
            ),
        closed_under_deps(units),
        forall|path: Seq<Seq<char>>| !is_cycle(units, path),
{
    assert forall|k: Seq<char>| #[trigger] units.dom().contains(k) implies process::valid_name(k)
        && k != "main"@ && settled(units, k) by {
        let i = names.index_of(k);
        assert(names[i] == k);
        lemma_good_name(names, i);
        lemma_none_stuck(units, names, i);
    }
    assert forall|k: Seq<char>, i: int|
        units.dom().contains(k) && 0 <= i < dep_list(
            units[k],
        ).len() implies units.dom().contains(#[trigger] dep_list(units[k])[i]) by {
        let q = names.index_of(k);
        assert(names[q] == k);
        lemma_no_reference_error(units, names, q, i);
    }
    assert forall|path: Seq<Seq<char>>| !is_cycle(units, path) by {
        if is_cycle(units, path) {
            assert(units.dom().contains(path[0]));
            let n = choose|n: nat| settles(units, path[0], n);
            lemma_cycle_never_settles(units, path, 0, n);
        }
    }
}

// ---------------------------------------------------------------------------
// Start order
// ---------------------------------------------------------------------------

/// Units that can be used: their names are process names other than `main`, their
/// dependencies are units, and each of them can start.
pub open spec fn usable(units: Map<Seq<char>, UnitView>) -> bool {
    &&& forall|k: Seq<char>| #[trigger]
        units.dom().contains(k) ==> process::valid_name(k) && k != "main"@ && settled(units, k)
    &&& closed_under_deps(units)
}

proof fn lemma_clean_name_error(names: Seq<Seq<char>>)
    requires
        forall|i: int|
            0 <= i < names.len() ==> process::valid_name(#[trigger] names[i]) && names[i]
                != "main"@,
    ensures
        name_error(names) is None,
    decreases names.len(),
{
    if names.len() > 0 {
        let rest = names.skip(1);
        assert forall|i: int| 0 <= i < rest.len() implies process::valid_name(#[trigger] rest[i])
            && rest[i] != "main"@ by {
            assert(rest[i] == names[i + 1]);
        }
        lemma_clean_name_error(rest);
    }
}

proof fn lemma_clean_unknown_dep(units: Map<Seq<char>, UnitView>, deps: Seq<Seq<char>>)
    requires
        forall|i: int| 0 <= i < deps.len() ==> units.dom().contains(#[trigger] deps[i]),
    ensures
        unknown_dep(units, deps) is None,
    decreases deps.len(),
{
    if deps.len() > 0 {
        let rest = deps.skip(1);
        assert forall|i: int| 0 <= i < rest.len() implies units.dom().contains(
            #[trigger] rest[i],
        ) by {
            assert(rest[i] == deps[i + 1]);
        }
        lemma_clean_unknown_dep(units, rest);
    }
}

proof fn lemma_clean_reference_error(units: Map<Seq<char>, UnitView>, names: Seq<Seq<char>>)
    requires
        closed_under_deps(units),
        forall|i: int| 0 <= i < names.len() ==> units.dom().contains(#[trigger] names[i]),
    ensures
        reference_error(units, names) is None,
    decreases names.len(),
{
    if names.len() > 0 {
        lemma_clean_unknown_dep(units, dep_list(units[names[0]]));
        let rest = names.skip(1);
        assert forall|i: int| 0 <= i < rest.len() implies units.dom().contains(
            #[trigger] rest[i],
        ) by {
            assert(rest[i] == names[i + 1]);
        }
        lemma_clean_reference_error(units, rest);
    }
}

proof fn lemma_all_settle(units: Map<Seq<char>, UnitView>, names: Seq<Seq<char>>)
    requires
        forall|i: int| 0 <= i < names.len() ==> settled(units, #[trigger] names[i]),
    ensures
        stuck(units, names).len() == 0,
    decreases names.len(),
{
    if names.len() > 0 {
        let rest = names.drop_last();
        assert forall|i: int| 0 <= i < rest.len() implies settled(units, #[trigger] rest[i]) by {
            assert(rest[i] == names[i]);
        }
        lemma_all_settle(units, rest);
        assert(settled(units, names[names.len() - 1]));
    }
}

/// Whether something is wrong with the units of a Psyfile does not depend on the
/// order in which they are taken.
pub proof fn lemma_validation(units: Map<Seq<char>, UnitView>, names: Seq<Seq<char>>)
    requires
        forall|k: Seq<char>| #[trigger] units.dom().contains(k) <==> names.contains(k),
    ensures
        validation_error(units, names) is None <==> usable(units),
{
    if validation_error(units, names) is None {
        lemma_validated(units, names);
    }
    if usable(units) {
        assert forall|i: int| 0 <= i < names.len() implies units.dom().contains(
            #[trigger] names[i],
        ) by {
            assert(names.contains(names[i]));
        }
        lemma_clean_name_error(names);
        lemma_clean_reference_error(units, names);
        lemma_all_settle(units, names);
    }
}


/// The order that comes of starting a unit after its dependencies: `order` are
/// the units that start before, `visiting` those that wait for this one.
pub open spec fn visit(
    units: Map<Seq<char>, UnitView>,
    name: Seq<char>,
    visiting: Seq<Seq<char>>,
    order: Seq<Seq<char>>,
) -> Result<Seq<Seq<char>>, Seq<char>>
    decreases units.dom().len() - visiting.len(), 0nat,
{
    if order.contains(name) {
        Ok(order)
    } else if visiting.contains(name) {
        Err("circular dependency involving '"@ + name + "'"@)
    } else if !units.dom().contains(name) {
        Err("unknown unit '"@ + name + "'"@)
    } else if visiting.len() >= units.dom().len() {
        Err("circular dependency involving '"@ + name + "'"@)
    } else {
        match visit_all(units, dep_list(units[name]), visiting.push(name), order) {
            Ok(o) => Ok(o.push(name)),
            Err(e) => Err(e),
        }
    }
}

/// The order that comes of starting several units one after the other.
pub open spec fn visit_all(
    units: Map<Seq<char>, UnitView>,
    names: Seq<Seq<char>>,
    visiting: Seq<Seq<char>>,
    order: Seq<Seq<char>>,
) -> Result<Seq<Seq<char>>, Seq<char>>
    decreases units.dom().len() - visiting.len(), names.len(),
{
    if names.len() == 0 {
        Ok(order)
    } else {
        match visit_all(units, names.drop_last(), visiting, order) {
            Ok(o) => visit(units, names.last(), visiting, o),
            Err(e) => Err(e),
        }
    }
}

/// An error among the first names is the error of the whole list.
proof fn lemma_visit_error(
    units: Map<Seq<char>, UnitView>,
    names: Seq<Seq<char>>,
    visiting: Seq<Seq<char>>,
    order: Seq<Seq<char>>,
    k: int,
)
    requires
        0 <= k <= names.len(),
        visit_all(units, names.take(k), visiting, order) is Err,
    ensures
        visit_all(units, names, visiting, order) == visit_all(
            units,
            names.take(k),
            visiting,
            order,
        ),
    decreases names.len() - k,
{
    if k < names.len() {
        assert(names.take(k + 1).drop_last() =~= names.take(k));
        lemma_visit_error(units, names, visiting, order, k + 1);
    } else {
        assert(names.take(k) =~= names);
    }
}

/// A list of different units is no longer than the number of units.
proof fn lemma_pigeonhole(units: Map<Seq<char>, UnitView>, names: Seq<Seq<char>>)
    requires
        units.dom().finite(),
        names.no_duplicates(),
        forall|i: int| 0 <= i < names.len() ==> units.dom().contains(#[trigger] names[i]),
    ensures
        names.len() <= units.dom().len(),
{
    names.unique_seq_to_set();
    assert(names.to_set().subset_of(units.dom())) by {
        assert forall|x: Seq<char>| names.to_set().contains(x) implies units.dom().contains(x) by {
            let i = names.index_of(x);
            assert(names[i] == x);
        }
    }
    vstd::set_lib::lemma_len_subset(names.to_set(), units.dom());
}

pub(crate) fn has(list: &Vec<String>, name: &str) -> (r: bool)
    ensures
        r == text::texts(list@).contains(name@),
{
    let mut i: usize = 0;
    while i < list.len()
        invariant
            i <= list.len(),
            forall|j: int| 0 <= j < i ==> (#[trigger] list@[j])@ != name@,
        decreases list.len() - i,
    {
        if text::same(list[i].as_str(), name) {
            proof {
                assert(text::texts(list@)[i as int] == name@);
            }
            return true;
        }
        i += 1;
    }
    proof {
        assert forall|j: int| 0 <= j < text::texts(list@).len() implies text::texts(list@)[j]
            != name@ by {
            assert(list@[j]@ != name@);
        }
    }
    false
}

/// Puts a unit behind its dependencies in the start order.
fn dfs_order(
    psyfile: &Psyfile,
    name: &str,
    visiting: &mut Vec<String>,
    result: &mut Vec<String>,
) -> (r: Result<(), String>)
    requires
        psyfile::units_view(psyfile.units@).dom().finite(),
        text::texts(old(visiting)@).no_duplicates(),
        forall|i: int|
            0 <= i < old(visiting)@.len() ==> psyfile::units_view(psyfile.units@).dom().contains(
                (#[trigger] old(visiting)@[i])@,
            ),
    ensures
        match r {
            Ok(_) => {
                &&& text::texts(final(visiting)@) == text::texts(old(visiting)@)
                &&& visit(
                    psyfile::units_view(psyfile.units@),
                    name@,
                    text::texts(old(visiting)@),
                    text::texts(old(result)@),
                ) == Ok::<Seq<Seq<char>>, Seq<char>>(text::texts(final(result)@))
            },
            Err(e) => visit(
                psyfile::units_view(psyfile.units@),
                name@,
                text::texts(old(visiting)@),
                text::texts(old(result)@),
            ) == Err::<Seq<Seq<char>>, Seq<char>>(e@),
        },
    decreases psyfile::units_view(psyfile.units@).dom().len() - old(visiting)@.len(),
{
    let ghost units = psyfile::units_view(psyfile.units@);
    let ghost stack = text::texts(visiting@);
    let ghost start = text::texts(result@);
    if has(result, name) {
        return Ok(());
    }
    if has(visiting, name) {
        return Err(text::concat3("circular dependency involving '", name, "'"));
    }
    let unit = match psyfile.units.get(name) {
        Some(u) => u,
        None => {
            return Err(text::concat3("unknown unit '", name, "'"));
        },
    };
    let ghost deeper = stack.push(name@);
    let ghost deps = dep_list(unit@);
    visiting.push(text::copy(name));
    proof {
        assert(units[name@] == unit@);
        assert(text::texts(visiting@) =~= deeper);
        assert forall|i: int| 0 <= i < deeper.len() implies units.dom().contains(
            #[trigger] deeper[i],
        ) by {
            if i < stack.len() {
                assert(deeper[i] == old(visiting)@[i]@);
            }
        }
        lemma_pigeonhole(units, deeper);
        assert(stack.len() == old(visiting)@.len());
    }
    let mut i: usize = 0;
    while i < unit.depends_on.len()
        invariant
            i <= unit.depends_on.len(),
            units == psyfile::units_view(psyfile.units@),
            units.dom().finite(),
            deps == dep_list(unit@),
            deeper.no_duplicates(),
            deeper.len() <= units.dom().len(),
            deeper.len() == old(visiting)@.len() + 1,
            stack == text::texts(old(visiting)@),
            start == text::texts(old(result)@),
            visit_all(units, deps, deeper, start) matches Err(e) ==> visit(
                units,
                name@,
                stack,
                start,
            ) == Err::<Seq<Seq<char>>, Seq<char>>(e),
            text::texts(visiting@) == deeper,
            forall|i: int| 0 <= i < deeper.len() ==> units.dom().contains(#[trigger] deeper[i]),
            visit_all(units, deps.take(i as int), deeper, start) == Ok::<
                Seq<Seq<char>>,
                Seq<char>,
            >(text::texts(result@)),
        decreases unit.depends_on.len() - i,
    {
        let dep = &unit.depends_on[i].name;
        proof {
            assert(deps.take(i + 1).drop_last() =~= deps.take(i as int));
            assert(deps.take(i + 1).last() == dep@);
            assert forall|q: int| 0 <= q < visiting@.len() implies units.dom().contains(
                (#[trigger] visiting@[q])@,
            ) by {
                assert(deeper[q] == visiting@[q]@);
            }
            assert(visiting@.len() == deeper.len());
        }
        match dfs_order(psyfile, dep.as_str(), visiting, result) {
            Ok(_) => {},
            Err(e) => {
                proof {
                    lemma_visit_error(units, deps, deeper, start, i + 1);
                }
                return Err(e);
            },
        }
        i += 1;
    }
    proof {
        assert(deps.take(deps.len() as int) =~= deps);
        assert(visiting@.len() == deeper.len());
    }
    let ghost full = visiting@;
    visiting.pop();
    let ghost before = text::texts(result@);
    result.push(text::copy(name));
    proof {
        assert(text::texts(visiting@) =~= text::texts(full).drop_last());
        assert(text::texts(visiting@) =~= stack);
        assert(text::texts(result@) =~= before.push(name@));
    }
    Ok(())
}

/// The order in which to start the given units and all they depend on:
/// dependencies first.
pub fn resolve_start_order(psyfile: &Psyfile, names: &Vec<String>) -> (r: Result<
    Vec<String>,
    String,
>)
    ensures
        match r {
            Ok(order) => visit_all(
                psyfile::units_view(psyfile.units@),
                text::texts(names@),
                Seq::empty(),
                Seq::empty(),
            ) == Ok::<Seq<Seq<char>>, Seq<char>>(text::texts(order@)),
            Err(e) => visit_all(
                psyfile::units_view(psyfile.units@),
                text::texts(names@),
                Seq::empty(),
                Seq::empty(),
            ) == Err::<Seq<Seq<char>>, Seq<char>>(e@),
        },
{
    let ghost units = psyfile::units_view(psyfile.units@);
    let ghost none = Seq::<Seq<char>>::empty();
    let ghost all = text::texts(names@);
    let mut result: Vec<String> = Vec::new();
    let mut visiting: Vec<String> = Vec::new();
    let mut i: usize = 0;
    proof {
        psyfile.units.lemma_finite();
        assert(units.dom() =~= psyfile.units@.dom());
        assert(text::texts(result@) =~= none);
        assert(text::texts(visiting@) =~= none);
    }
    while i < names.len()
        invariant
            i <= names.len(),
            units == psyfile::units_view(psyfile.units@),
            units.dom().finite(),
            none == Seq::<Seq<char>>::empty(),
            all == text::texts(names@),
            text::texts(visiting@) == none,
            visit_all(units, all.take(i as int), none, none) == Ok::<Seq<Seq<char>>, Seq<char>>(
                text::texts(result@),
            ),
        decreases names.len() - i,
    {
        proof {
            assert(all.take(i + 1).drop_last() =~= all.take(i as int));
            assert(all.take(i + 1).last() == names@[i as int]@);
            assert(visiting@.len() == none.len());
        }
        match dfs_order(psyfile, names[i].as_str(), &mut visiting, &mut result) {
            Ok(_) => {},
            Err(e) => {
                proof {
                    lemma_visit_error(units, all, none, none, i + 1);
                }
                return Err(e);
            },
        }
        i += 1;
    }
    proof {
        assert(all.take(all.len() as int) =~= all);
    }
    Ok(result)
}

/// A start order: no unit twice, and each behind all its dependencies.
pub open spec fn is_start_order(units: Map<Seq<char>, UnitView>, order: Seq<Seq<char>>) -> bool {
    &&& order.no_duplicates()
    &&& forall|i: int| 0 <= i < order.len() ==> units.dom().contains(#[trigger] order[i])
    &&& forall|i: int, j: int|
        0 <= i < order.len() && 0 <= j < dep_list(units[order[i]]).len() ==> order.take(
            i,
        ).contains(#[trigger] dep_list(units[order[i]])[j])
}

/// Whether the unit at a position is asked for, or a later unit depends on it.
pub open spec fn wanted(
    units: Map<Seq<char>, UnitView>,
    names: Seq<Seq<char>>,
    order: Seq<Seq<char>>,
    i: int,
) -> bool {
    names.contains(order[i]) || exists|k: int|
        i < k < order.len() && dep_list(units[#[trigger] order[k]]).contains(order[i])
}

/// What a longer order keeps of a shorter one.
spec fn extends(
    units: Map<Seq<char>, UnitView>,
    names: Seq<Seq<char>>,
    visiting: Seq<Seq<char>>,
    order: Seq<Seq<char>>,
    longer: Seq<Seq<char>>,
) -> bool {
    &&& is_start_order(units, longer)
    &&& order.len() <= longer.len()
    &&& longer.take(order.len() as int) == order
    &&& forall|i: int| 0 <= i < names.len() ==> longer.contains(#[trigger] names[i])
    &&& forall|v: Seq<char>| #[trigger]
        visiting.contains(v) && !order.contains(v) ==> !longer.contains(v)
    &&& forall|i: int|
        order.len() <= i < longer.len() ==> #[trigger] wanted(units, names, longer, i)
}

proof fn lemma_visit(
    units: Map<Seq<char>, UnitView>,
    name: Seq<char>,
    visiting: Seq<Seq<char>>,
    order: Seq<Seq<char>>,
)
    requires
        is_start_order(units, order),
        visit(units, name, visiting, order) is Ok,
    ensures
        extends(units, seq![name], visiting, order, visit(units, name, visiting, order)->Ok_0),
    decreases units.dom().len() - visiting.len(), 0nat,
{
    let longer = visit(units, name, visiting, order)->Ok_0;
    let names = seq![name];
    if order.contains(name) {
        assert(longer.take(order.len() as int) =~= order);
    } else {
        let deeper = visiting.push(name);
        let deps = dep_list(units[name]);
        lemma_visit_all(units, deps, deeper, order);
        let o = visit_all(units, deps, deeper, order)->Ok_0;
        assert(longer == o.push(name));
        assert(deeper[visiting.len() as int] == name);
        assert(deeper.contains(name));
        assert(!o.contains(name));
        assert(longer.take(order.len() as int) =~= order) by {
            assert(o.take(order.len() as int) == order);
            assert forall|i: int| 0 <= i < order.len() implies longer[i] == order[i] by {
                assert(o.take(order.len() as int)[i] == o[i]);
            }
        }
        assert forall|i: int, j: int|
            0 <= i < longer.len() && 0 <= j < dep_list(
                units[longer[i]],
            ).len() implies longer.take(i).contains(
            #[trigger] dep_list(units[longer[i]])[j],
        ) by {
            if i < o.len() {
                assert(longer[i] == o[i]);
                assert(longer.take(i) =~= o.take(i));
                assert(o.take(i).contains(dep_list(units[o[i]])[j]));
            } else {
                assert(longer.take(i) =~= o);
                assert(o.contains(deps[j]));
            }
        }
        assert(longer[o.len() as int] == name);
        assert forall|v: Seq<char>| #[trigger]
            visiting.contains(v) && !order.contains(v) implies !longer.contains(v) by {
            let q = visiting.index_of(v);
            assert(deeper[q] == v);
            assert(deeper.contains(v));
            assert(!o.contains(v));
            assert(v != name);
            if longer.contains(v) {
                let z = longer.index_of(v);
                assert(longer[z] == v);
                assert(o[z] == v);
            }
        }
        assert forall|i: int| order.len() <= i < longer.len() implies #[trigger] wanted(
            units,
            names,
            longer,
            i,
        ) by {
            if i < o.len() {
                assert(longer[i] == o[i]);
                assert(wanted(units, deps, o, i));
                if deps.contains(o[i]) {
                    let k = o.len() as int;
                    assert(longer[k] == name);
                    assert(dep_list(units[longer[k]]).contains(longer[i]));
                } else {
                    let k = choose|k: int|
                        i < k < o.len() && dep_list(units[#[trigger] o[k]]).contains(o[i]);
                    assert(longer[k] == o[k]);
                }
            } else {
                assert(names[0] == name);
            }
        }
    }
}

proof fn lemma_visit_all(
    units: Map<Seq<char>, UnitView>,
    names: Seq<Seq<char>>,
    visiting: Seq<Seq<char>>,
    order: Seq<Seq<char>>,
)
    requires
        is_start_order(units, order),
        visit_all(units, names, visiting, order) is Ok,
    ensures
        extends(units, names, visiting, order, visit_all(units, names, visiting, order)->Ok_0),
    decreases units.dom().len() - visiting.len(), names.len(),
{
    let longer = visit_all(units, names, visiting, order)->Ok_0;
    if names.len() == 0 {
        assert(longer.take(order.len() as int) =~= order);
    } else {
        let rest = names.drop_last();
        let last = names.last();
        lemma_visit_all(units, rest, visiting, order);
        let o = visit_all(units, rest, visiting, order)->Ok_0;
        lemma_visit(units, last, visiting, o);
        assert(longer.take(order.len() as int) =~= order) by {
            assert forall|i: int| 0 <= i < order.len() implies longer[i] == order[i] by {
                assert(longer.take(o.len() as int)[i] == longer[i]);
                assert(o.take(order.len() as int)[i] == o[i]);
            }
        }
        assert forall|i: int| 0 <= i < o.len() implies longer[i] == o[i] by {
            assert(longer.take(o.len() as int)[i] == longer[i]);
        }
        assert forall|i: int| 0 <= i < names.len() implies longer.contains(
            #[trigger] names[i],
        ) by {
            if i < rest.len() {
                assert(rest[i] == names[i]);
                let z = o.index_of(rest[i]);
                assert(o[z] == rest[i]);
                assert(longer[z] == rest[i]);
            } else {
                assert(seq![last][0] == last);
                assert(longer.contains(seq![last][0]));
            }
        }
        assert forall|i: int| order.len() <= i < longer.len() implies #[trigger] wanted(
            units,
            names,
            longer,
            i,
        ) by {
            if i < o.len() {
                assert(wanted(units, rest, o, i));
                if rest.contains(o[i]) {
                    let z = rest.index_of(o[i]);
                    assert(names[z] == o[i]);
                } else {
                    let k = choose|k: int|
                        i < k < o.len() && dep_list(units[#[trigger] o[k]]).contains(o[i]);
                    assert(longer[k] == o[k]);
                }
            } else {
                assert(wanted(units, seq![last], longer, i));
                if seq![last].contains(longer[i]) {
                    assert(names[names.len() - 1] == longer[i]);
                }
            }
        }
    }
}

/// What holds of the start order of some units: it has each of them, no unit
/// twice, every unit behind its dependencies, and only units that are asked
/// for or that a later one depends on.
pub proof fn lemma_start_order(
    units: Map<Seq<char>, UnitView>,
    names: Seq<Seq<char>>,
    order: Seq<Seq<char>>,
)
    requires
        visit_all(units, names, Seq::empty(), Seq::empty()) == Ok::<Seq<Seq<char>>, Seq<char>>(
            order,
        ),
    ensures
        is_start_order(units, order),
        forall|i: int| 0 <= i < names.len() ==> order.contains(#[trigger] names[i]),
        forall|i: int| 0 <= i < order.len() ==> #[trigger] wanted(units, names, order, i),
{
    lemma_visit_all(units, names, Seq::empty(), Seq::empty());
}

/// The least number of rounds in which a unit can start.
proof fn lemma_least_rounds(units: Map<Seq<char>, UnitView>, name: Seq<char>, r: nat) -> (m: nat)
    requires
        settles(units, name, r),
    ensures
        0 < m <= r,
        settles(units, name, m),
        !settles(units, name, (m - 1) as nat),
    decreases r,
{
    if settles(units, name, (r - 1) as nat) {
        lemma_least_rounds(units, name, (r - 1) as nat)
    } else {
        r
    }
}

proof fn lemma_visit_succeeds(
    units: Map<Seq<char>, UnitView>,
    name: Seq<char>,
    visiting: Seq<Seq<char>>,
    order: Seq<Seq<char>>,
    r: nat,
)
    requires
        units.dom().finite(),
        settles(units, name, r),
        visiting.no_duplicates(),
        forall|i: int|
            0 <= i < visiting.len() ==> units.dom().contains(#[trigger] visiting[i]) && !settles(
                units,
                visiting[i],
                r,
            ),
    ensures
        visit(units, name, visiting, order) is Ok,
    decreases units.dom().len() - visiting.len(), 0nat,
{
    if !order.contains(name) {
        if visiting.contains(name) {
            let i = visiting.index_of(name);
            assert(visiting[i] == name);
        }
        let m = lemma_least_rounds(units, name, r);
        let deeper = visiting.push(name);
        let q = (m - 1) as nat;
        assert forall|i: int| 0 <= i < deeper.len() implies units.dom().contains(
            #[trigger] deeper[i],
        ) && !settles(units, deeper[i], q) by {
            if i < visiting.len() {
                assert(deeper[i] == visiting[i]);
                if settles(units, visiting[i], q) {
                    lemma_settles_monotone(units, visiting[i], q, r);
                }
            }
        }
        lemma_pigeonhole(units, deeper);
        lemma_visit_all_succeeds(units, dep_list(units[name]), deeper, order, q);
    }
}

proof fn lemma_visit_all_succeeds(
    units: Map<Seq<char>, UnitView>,
    names: Seq<Seq<char>>,
    visiting: Seq<Seq<char>>,
    order: Seq<Seq<char>>,
    r: nat,
)
    requires
        units.dom().finite(),
        forall|i: int| 0 <= i < names.len() ==> settles(units, #[trigger] names[i], r),
        visiting.no_duplicates(),
        forall|i: int|
            0 <= i < visiting.len() ==> units.dom().contains(#[trigger] visiting[i]) && !settles(
                units,
                visiting[i],
                r,
            ),
    ensures
        visit_all(units, names, visiting, order) is Ok,
    decreases units.dom().len() - visiting.len(), names.len(),
{
    if names.len() > 0 {
        let rest = names.drop_last();
        assert forall|i: int| 0 <= i < rest.len() implies settles(units, #[trigger] rest[i], r) by {
            assert(rest[i] == names[i]);
        }
        lemma_visit_all_succeeds(units, rest, visiting, order, r);
        assert(settles(units, names[names.len() - 1], r));
        lemma_visit_succeeds(
            units,
            names.last(),
            visiting,
            visit_all(units, rest, visiting, order)->Ok_0,
            r,
        );
    }
}

/// Units of a Psyfile that passes validation always have a start order.
pub proof fn lemma_validated_has_order(
    units: Map<Seq<char>, UnitView>,
    all: Seq<Seq<char>>,
    names: Seq<Seq<char>>,
)
    requires
        validation_error(units, all) is None,
        units.dom().finite(),
        forall|k: Seq<char>| #[trigger] units.dom().contains(k) <==> all.contains(k),
        forall|i: int| 0 <= i < names.len() ==> units.dom().contains(#[trigger] names[i]),
    ensures
        visit_all(units, names, Seq::empty(), Seq::empty()) is Ok,
{
    lemma_validated(units, all);
    assert forall|i: int| 0 <= i < names.len() implies settled(units, #[trigger] names[i]) by {
        assert(units.dom().contains(names[i]));
    }
    let n = lemma_common_rounds(units, names);
    lemma_visit_all_succeeds(units, names, Seq::empty(), Seq::empty(), n);
}

/// A chain of dependencies: each name but the last is a unit that depends on the next.
pub open spec fn is_chain(units: Map<Seq<char>, UnitView>, path: Seq<Seq<char>>) -> bool {
    &&& path.len() > 0
    &&& forall|i: int|
        0 <= i < path.len() - 1 ==> units.dom().contains(#[trigger] path[i]) && dep_list(
            units[path[i]],
        ).contains(path[i + 1])
}

/// Whether a name is one of some names, or dependencies lead to it from one of them.
pub open spec fn reachable(
    units: Map<Seq<char>, UnitView>,
    names: Seq<Seq<char>>,
    name: Seq<char>,
) -> bool {
    exists|path: Seq<Seq<char>>| #[trigger]
        is_chain(units, path) && names.contains(path.first()) && path.last() == name
}

/// Whether a name that is no unit can be reached from some names.
pub open spec fn reaches_unknown(units: Map<Seq<char>, UnitView>, names: Seq<Seq<char>>) -> bool {
    exists|name: Seq<char>| #[trigger] reachable(units, names, name) && !units.dom().contains(name)
}

/// Whether units that depend on each other in a circle can be reached from some names.
pub open spec fn reaches_cycle(units: Map<Seq<char>, UnitView>, names: Seq<Seq<char>>) -> bool {
    exists|path: Seq<Seq<char>>| #[trigger]
        is_cycle(units, path) && reachable(units, names, path.first())
}

/// In a start order, each unit can start.
proof fn lemma_ordered_settles(units: Map<Seq<char>, UnitView>, order: Seq<Seq<char>>, i: int)
    requires
        is_start_order(units, order),
        0 <= i < order.len(),
    ensures
        settles(units, order[i], (i + 1) as nat),
    decreases i,
{
    let deps = dep_list(units[order[i]]);
    assert(units.dom().contains(order[i]));
    assert forall|j: int| 0 <= j < deps.len() implies settles(
        units,
        #[trigger] deps[j],
        i as nat,
    ) by {
        assert(order.take(i).contains(dep_list(units[order[i]])[j]));
        let k = order.take(i).index_of(deps[j]);
        assert(order[k] == deps[j]);
        lemma_ordered_settles(units, order, k);
        lemma_settles_monotone(units, deps[j], (k + 1) as nat, i as nat);
    }
}

/// There is a start order exactly where every unit asked for can start.
proof fn lemma_order_iff_settled(units: Map<Seq<char>, UnitView>, names: Seq<Seq<char>>)
    requires
        units.dom().finite(),
    ensures
        visit_all(units, names, Seq::empty(), Seq::empty()) is Ok <==> forall|i: int|
            0 <= i < names.len() ==> settled(units, #[trigger] names[i]),
{
    let none = Seq::<Seq<char>>::empty();
    if visit_all(units, names, none, none) is Ok {
        let order = visit_all(units, names, none, none)->Ok_0;
        lemma_start_order(units, names, order);
        assert forall|i: int| 0 <= i < names.len() implies settled(units, #[trigger] names[i]) by {
            assert(order.contains(names[i]));
            let k = order.index_of(names[i]);
            assert(order[k] == names[i]);
            lemma_ordered_settles(units, order, k);
        }
    }
    if forall|i: int| 0 <= i < names.len() ==> settled(units, #[trigger] names[i]) {
        let n = lemma_common_rounds(units, names);
        lemma_visit_all_succeeds(units, names, none, none, n);
    }
}

/// Along a chain from a unit that can start, every unit can start.
proof fn lemma_chain_settles(units: Map<Seq<char>, UnitView>, path: Seq<Seq<char>>, i: int)
    requires
        is_chain(units, path),
        settled(units, path.first()),
        0 <= i < path.len(),
    ensures
        settled(units, path[i]),
    decreases i,
{
    if i > 0 {
        lemma_chain_settles(units, path, i - 1);
        let here = path[i - 1];
        let n = choose|n: nat| settles(units, here, n);
        let deps = dep_list(units[here]);
        assert(deps.contains(path[i - 1 + 1]));
        let j = deps.index_of(path[i]);
        assert(deps[j] == path[i]);
        assert(settles(units, deps[j], (n - 1) as nat));
    }
}

/// From a name that cannot start, a chain of names that cannot start leads on, until it
/// comes to one that is no unit.
proof fn lemma_stuck_chain(units: Map<Seq<char>, UnitView>, name: Seq<char>, k: nat) -> (w: Seq<
    Seq<char>,
>)
    requires
        !settled(units, name),
        k > 0,
    ensures
        is_chain(units, w),
        w.first() == name,
        !settled(units, w.last()),
        w.len() == k || !units.dom().contains(w.last()),
        w.len() <= k,
    decreases k,
{
    if k == 1 {
        seq![name]
    } else {
        let w = lemma_stuck_chain(units, name, (k - 1) as nat);
        let last = w.last();
        if !units.dom().contains(last) {
            w
        } else {
            let deps = dep_list(units[last]);
            if forall|i: int| 0 <= i < deps.len() ==> settled(units, #[trigger] deps[i]) {
                lemma_settled_by_deps(units, last);
            }
            let j = choose|j: int| 0 <= j < deps.len() && !settled(units, #[trigger] deps[j]);
            let r = w.push(deps[j]);
            assert forall|i: int| 0 <= i < r.len() - 1 implies units.dom().contains(
                #[trigger] r[i],
            ) && dep_list(units[r[i]]).contains(r[i + 1]) by {
                assert(r[i] == w[i]);
                if i + 1 < w.len() {
                    assert(r[i + 1] == w[i + 1]);
                } else {
                    assert(deps.contains(deps[j]));
                }
            }
            r
        }
    }
}

/// Where a name cannot start, a name that is no unit or a circle of dependencies can be
/// reached from it.
proof fn lemma_why_stuck(units: Map<Seq<char>, UnitView>, names: Seq<Seq<char>>, name: Seq<char>)
    requires
        units.dom().finite(),
        names.contains(name),
        !settled(units, name),
    ensures
        reaches_unknown(units, names) || reaches_cycle(units, names),
{
    let n = units.dom().len();
    let w = lemma_stuck_chain(units, name, n + 1);
    if !units.dom().contains(w.last()) {
        assert(reachable(units, names, w.last()));
    } else {
        assert forall|i: int| 0 <= i < w.len() implies units.dom().contains(#[trigger] w[i]) by {
            if i < w.len() - 1 {
                assert(units.dom().contains(w[i]));
            }
        }
        if w.no_duplicates() {
            lemma_pigeonhole(units, w);
        }
        let (i, j) = choose|i: int, j: int|
            0 <= i < j < w.len() && #[trigger] w[i] == #[trigger] w[j];
        let path = w.subrange(i, j + 1);
        assert forall|q: int| 0 <= q < path.len() - 1 implies units.dom().contains(
            #[trigger] path[q],
        ) && dep_list(units[path[q]]).contains(path[q + 1]) by {
            assert(path[q] == w[i + q]);
            assert(path[q + 1] == w[i + q + 1]);
        }
        let way = w.take(i + 1);
        assert forall|q: int| 0 <= q < way.len() - 1 implies units.dom().contains(
            #[trigger] way[q],
        ) && dep_list(units[way[q]]).contains(way[q + 1]) by {
            assert(way[q] == w[q]);
            assert(way[q + 1] == w[q + 1]);
        }
        assert(is_chain(units, way));
        assert(way.first() == name);
        assert(way.last() == path.first());
        assert(reachable(units, names, path.first()));
        assert(is_cycle(units, path));
    }
}

/// The start order of some units fails exactly where a name that is no unit can be
/// reached from them, or units that depend on each other in a circle.
pub proof fn lemma_no_start_order(units: Map<Seq<char>, UnitView>, names: Seq<Seq<char>>)
    requires
        units.dom().finite(),
    ensures
        visit_all(units, names, Seq::empty(), Seq::empty()) is Err <==> reaches_unknown(
            units,
            names,
        ) || reaches_cycle(units, names),
{
    lemma_order_iff_settled(units, names);
    if visit_all(units, names, Seq::empty(), Seq::empty()) is Err {
        let i = choose|i: int| 0 <= i < names.len() && !settled(units, #[trigger] names[i]);
        assert(names.contains(names[i]));
        lemma_why_stuck(units, names, names[i]);
    } else {
        if reaches_unknown(units, names) {
            let x = choose|x: Seq<char>| #[trigger]
                reachable(units, names, x) && !units.dom().contains(x);
            lemma_reachable_settles(units, names, x);
            let n = choose|n: nat| settles(units, x, n);
            assert(settles(units, x, n));
        }
        if reaches_cycle(units, names) {
            let path = choose|path: Seq<Seq<char>>| #[trigger]
                is_cycle(units, path) && reachable(units, names, path.first());
            lemma_reachable_settles(units, names, path.first());
            let here = path.first();
            let n = choose|n: nat| settles(units, here, n);
            lemma_cycle_never_settles(units, path, 0, n);
        }
    }
}

proof fn lemma_reachable_settles(
    units: Map<Seq<char>, UnitView>,
    names: Seq<Seq<char>>,
    name: Seq<char>,
)
    requires
        forall|i: int| 0 <= i < names.len() ==> settled(units, #[trigger] names[i]),
        reachable(units, names, name),
    ensures
        settled(units, name),
{
    let path = choose|path: Seq<Seq<char>>| #[trigger]
        is_chain(units, path) && names.contains(path.first()) && path.last() == name;
    let k = names.index_of(path.first());
    assert(names[k] == path.first());
    lemma_chain_settles(units, path, path.len() - 1);
}

} // verus!
