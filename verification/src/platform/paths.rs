//! Paths as a system reads them: what parts them, and what lies above them.
use crate::platform;
use crate::platform::System;
use crate::platform::windows;
use crate::text;
use vstd::prelude::*;

verus! {

/// Whether a character parts the names of a path.
pub open spec fn is_separator(system: System, c: char) -> bool {
    c == '/' || (system == System::Windows && c == '\\')
}

/// Tests whether a character parts the names of a path.
pub fn separates(system: System, c: char) -> (r: bool)
    ensures
        r == is_separator(system, c),
{
    c == '/' || (system == System::Windows && c == '\\')
}

/// The first position of a separator from a position on, or the length of the path.
pub open spec fn next_separator(system: System, path: Seq<char>, from: int) -> int
    decreases path.len() - from,
{
    if from >= path.len() {
        path.len() as int
    } else if is_separator(system, path[from]) {
        from
    } else {
        next_separator(system, path, from + 1)
    }
}

/// How long the part of a path is that names a drive, or a share of a server. Paths
/// have such a part on Windows only.
pub open spec fn prefix_len(system: System, path: Seq<char>) -> int {
    if system == System::Unix || path.len() < 2 {
        0
    } else if path[1] == ':' && ('a' <= path[0] <= 'z' || 'A' <= path[0] <= 'Z') {
        2
    } else if is_separator(system, path[0]) && is_separator(system, path[1]) {
        let server_end = next_separator(system, path, 2);
        let share_end = next_separator(system, path, server_end + 1);
        if server_end > 2 && server_end + 1 < share_end {
            share_end
        } else {
            0
        }
    } else {
        0
    }
}

/// A path without the separators at its end.
pub open spec fn bare(system: System, path: Seq<char>) -> Seq<char>
    decreases path.len(),
{
    if path.len() > 0 && is_separator(system, path.last()) {
        bare(system, path.drop_last())
    } else {
        path
    }
}

/// The last position of a separator in a path, or -1.
pub open spec fn last_separator(system: System, path: Seq<char>) -> int
    decreases path.len(),
{
    if path.len() == 0 {
        -1
    } else if is_separator(system, path.last()) {
        path.len() - 1
    } else {
        last_separator(system, path.drop_last())
    }
}

/// The directory above a path: the root of the system, of a drive or of a share has
/// none, and a single name has the directory that it is seen from.
pub open spec fn parent_dir(system: System, path: Seq<char>) -> Option<Seq<char>> {
    let n = prefix_len(system, path);
    let head = path.take(n);
    let p = bare(system, path.skip(n));
    let i = last_separator(system, p);
    if p.len() == 0 {
        None
    } else if i < 0 {
        Some(head)
    } else if bare(system, p.take(i)).len() == 0 {
        Some(head + p.take(1))
    } else {
        Some(head + bare(system, p.take(i)))
    }
}

/// A file below a directory, by its name.
pub open spec fn file_in(system: System, dir: Seq<char>, name: Seq<char>) -> Seq<char> {
    match system {
        System::Unix => platform::below(dir, name),
        System::Windows => if prefix_len(system, dir) == 2 && dir.len() == 2 {
            dir + name
        } else {
            windows::below(dir, name)
        },
    }
}

proof fn lemma_next_separator(system: System, path: Seq<char>, from: int)
    requires
        0 <= from,
    ensures
        next_separator(system, path, from) <= path.len(),
        from <= path.len() ==> from <= next_separator(system, path, from),
    decreases path.len() - from,
{
    if from < path.len() && !is_separator(system, path[from]) {
        lemma_next_separator(system, path, from + 1);
    }
}

/// The part that names a drive or a share is part of the path.
pub proof fn lemma_prefix(system: System, path: Seq<char>)
    ensures
        0 <= prefix_len(system, path) <= path.len(),
{
    if path.len() >= 2 {
        lemma_next_separator(system, path, 2);
        let server_end = next_separator(system, path, 2);
        lemma_next_separator(system, path, server_end + 1);
    }
}

proof fn lemma_bare(system: System, path: Seq<char>)
    ensures
        bare(system, path).len() <= path.len(),
        last_separator(system, path) < path.len(),
        -1 <= last_separator(system, path),
        bare(system, path).len() > 0 ==> !is_separator(system, bare(system, path).last()),
        last_separator(system, path) >= 0 ==> is_separator(
            system,
            path[last_separator(system, path)],
        ),
    decreases path.len(),
{
    if path.len() > 0 {
        lemma_bare(system, path.drop_last());
    }
}

/// Each step upward makes a path shorter.
pub proof fn lemma_parent_is_shorter(system: System, path: Seq<char>)
    ensures
        parent_dir(system, path) matches Some(d) ==> d.len() < path.len(),
{
    lemma_prefix(system, path);
    let n = prefix_len(system, path);
    let rest = path.skip(n);
    lemma_bare(system, rest);
    let p = bare(system, rest);
    lemma_bare(system, p);
    let i = last_separator(system, p);
    if p.len() > 0 && i >= 0 {
        lemma_bare(system, p.take(i));
        assert(i != p.len() - 1);
    }
}

fn find_separator(system: System, path: &Vec<char>, from: usize) -> (r: usize)
    requires
        from <= path.len(),
    ensures
        r == next_separator(system, path@, from as int),
        from <= r <= path.len(),
{
    let mut i: usize = from;
    while i < path.len() && !separates(system, path[i])
        invariant
            from <= i <= path.len(),
            next_separator(system, path@, from as int) == next_separator(system, path@, i as int),
        decreases path.len() - i,
    {
        i += 1;
    }
    i
}

/// Measures the part of a path that names a drive, or a share of a server.
fn measure_prefix(system: System, path: &Vec<char>) -> (r: usize)
    ensures
        r == prefix_len(system, path@),
        r <= path.len(),
{
    if system == System::Unix || path.len() < 2 {
        return 0;
    }
    let letter = ('a' <= path[0] && path[0] <= 'z') || ('A' <= path[0] && path[0] <= 'Z');
    if path[1] == ':' && letter {
        return 2;
    }
    if separates(system, path[0]) && separates(system, path[1]) {
        let server_end = find_separator(system, path, 2);
        if server_end > 2 && server_end < path.len() {
            let share_end = find_separator(system, path, server_end + 1);
            if server_end + 1 < share_end {
                return share_end;
            }
        }
    }
    0
}

fn without_separators(system: System, path: &Vec<char>) -> (r: Vec<char>)
    ensures
        r@ == bare(system, path@),
{
    let mut n: usize = path.len();
    proof {
        assert(path@.take(path@.len() as int) =~= path@);
    }
    while n > 0 && separates(system, path[n - 1])
        invariant
            n <= path.len(),
            bare(system, path@) == bare(system, path@.take(n as int)),
        decreases n,
    {
        proof {
            assert(path@.take(n as int).drop_last() =~= path@.take(n - 1));
        }
        n -= 1;
    }
    proof {
        assert(path@.subrange(0, n as int) =~= path@.take(n as int));
    }
    text::part(path, 0, n)
}

/// Finds the directory above a path.
pub fn parent(system: System, path: &Vec<char>) -> (r: Option<Vec<char>>)
    ensures
        match r {
            Some(d) => parent_dir(system, path@) == Some(d@),
            None => parent_dir(system, path@) is None,
        },
{
    let n = measure_prefix(system, path);
    let mut head = text::part(path, 0, n);
    let rest = text::part(path, n, path.len());
    proof {
        assert(head@ =~= path@.take(n as int));
        assert(rest@ =~= path@.skip(n as int));
    }
    let p = without_separators(system, &rest);
    if p.len() == 0 {
        return None;
    }
    let mut i: usize = p.len();
    proof {
        assert(p@.take(p@.len() as int) =~= p@);
    }
    while i > 0 && !separates(system, p[i - 1])
        invariant
            i <= p.len(),
            last_separator(system, p@) == last_separator(system, p@.take(i as int)),
        decreases i,
    {
        proof {
            assert(p@.take(i as int).drop_last() =~= p@.take(i - 1));
        }
        i -= 1;
    }
    if i == 0 {
        return Some(head);
    }
    let mut up = without_separators(system, &text::part(&p, 0, i - 1));
    proof {
        assert(p@.subrange(0, i - 1) =~= p@.take(i - 1));
        assert(last_separator(system, p@) == i - 1);
    }
    if up.len() == 0 {
        up.push(p[0]);
        proof {
            assert(up@ =~= p@.take(1));
        }
    }
    head.append(&mut up);
    Some(head)
}

/// Makes the path of a file below a directory.
pub fn join_file(system: System, dir: &str, name: &str) -> (r: String)
    ensures
        r@ == file_in(system, dir@, name@),
{
    match system {
        System::Unix => platform::join_path(dir, name),
        System::Windows => {
            let d = text::chars_of(dir);
            if d.len() == 2 && measure_prefix(system, &d) == 2 {
                text::concat2(dir, name)
            } else {
                windows::join_path(dir, name)
            }
        },
    }
}

} // verus!
