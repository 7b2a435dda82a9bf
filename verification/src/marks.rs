//! Marks on the names of a list, for walks that go on until nothing changes.
use vstd::prelude::*;

verus! {

/// Whether a name of a list is marked.
pub open spec fn marked(names: Seq<Seq<char>>, done: Seq<bool>, name: Seq<char>) -> bool {
    exists|k: int| 0 <= k < names.len() && names[k] == name && #[trigger] done[k]
}

/// How many marks are missing.
pub open spec fn count_open(done: Seq<bool>) -> nat
    decreases done.len(),
{
    if done.len() == 0 {
        0
    } else {
        count_open(done.drop_last()) + if done.last() {
            0nat
        } else {
            1nat
        }
    }
}

/// One more mark leaves one fewer to set.
pub proof fn lemma_count_open(done: Seq<bool>, i: int)
    requires
        0 <= i < done.len(),
        !done[i],
    ensures
        count_open(done) > 0,
        count_open(done.update(i, true)) == count_open(done) - 1,
    decreases done.len(),
{
    let after = done.update(i, true);
    if i == done.len() - 1 {
        assert(after.drop_last() =~= done.drop_last());
    } else {
        lemma_count_open(done.drop_last(), i);
        assert(after.drop_last() =~= done.drop_last().update(i, true));
    }
}

/// A list without marks.
pub fn none_marked(n: usize) -> (r: Vec<bool>)
    ensures
        r@.len() == n,
        forall|k: int| 0 <= k < n ==> !#[trigger] r@[k],
{
    let mut done: Vec<bool> = Vec::new();
    let mut i: usize = 0;
    while i < n
        invariant
            i <= n,
            done@.len() == i,
            forall|k: int| 0 <= k < i ==> !#[trigger] done@[k],
        decreases n - i,
    {
        done.push(false);
        i += 1;
    }
    done
}

} // verus!
