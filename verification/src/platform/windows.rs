//! Pipes, anchors and ancestry where there are named pipes.
use crate::platform;
use crate::text;
use vstd::prelude::*;

verus! {

/// The path of the pipe of a process.
pub fn socket_path(pid: u32) -> (r: String)
    ensures
        r@ == "\\\\.\\pipe\\psy-"@ + text::decimal(pid as nat),
{
    text::concat2("\\\\.\\pipe\\psy-", text::decimal_of(pid as u128).as_str())
}

/// Cleans up after a process that is gone: a pipe leaves nothing behind.
pub fn cleanup_stale_socket(_path: &str) -> (r: Result<(), String>)
    ensures
        r is Ok,
{
    Ok(())
}

/// A path below a directory.
pub open spec fn below(dir: Seq<char>, name: Seq<char>) -> Seq<char> {
    if dir.len() == 0 || dir.last() == '\\' || dir.last() == '/' {
        dir + name
    } else {
        dir + "\\"@ + name
    }
}

/// Makes a path below a directory. The name is that of a file, not a path.
pub fn join_path(dir: &str, name: &str) -> (r: String)
    ensures
        r@ == below(dir@, name@),
{
    let d = text::chars_of(dir);
    if d.len() == 0 || d[d.len() - 1] == '\\' || d[d.len() - 1] == '/' {
        text::concat2(dir, name)
    } else {
        text::concat3(dir, "\\", name)
    }
}

/// The directory for anchor files: that of the user's data, else that of temporary
/// files, else one below the root of the drive.
pub open spec fn anchors_dir(local: Option<Seq<char>>, temp: Option<Seq<char>>) -> Seq<char> {
    match (local, temp) {
        (Some(d), _) => below(below(d, "psy"@), "roots"@),
        (None, Some(d)) => below(d, "psy-roots"@),
        (None, None) => "C:\\Temp\\psy-roots"@,
    }
}

/// Picks the directory for anchor files.
pub fn roots_dir(local: &Option<String>, temp: &Option<String>) -> (r: String)
    ensures
        r@ == anchors_dir(text::opt_text(*local), text::opt_text(*temp)),
{
    match local {
        Some(d) => {
            let psy = join_path(d.as_str(), "psy");
            join_path(psy.as_str(), "roots")
        },
        None => match temp {
            Some(d) => join_path(d.as_str(), "psy-roots"),
            None => text::copy("C:\\Temp\\psy-roots"),
        },
    }
}

/// The file name of an anchor.
pub fn anchor_chain_filename(chain: &Vec<u32>) -> (r: String)
    ensures
        r@ == platform::chain_name(chain@, ".pipe"@),
{
    platform::chain_filename(chain, ".pipe")
}

/// Reads the chain in the file name of an anchor.
pub fn parse_anchor_chain(filename: &str) -> (r: Option<Vec<u32>>)
    ensures
        match r {
            Some(v) => platform::chain_in_name(filename@, ".pipe"@) == Some(v@),
            None => platform::chain_in_name(filename@, ".pipe"@) is None,
        },
{
    platform::read_chain(filename, ".pipe")
}

/// The path of an anchor in the directory for anchor files.
pub fn anchor_file_path(dir: &str, chain: &Vec<u32>) -> (r: String)
    ensures
        r@ == below(dir@, platform::chain_name(chain@, ".pipe"@)),
{
    let name = anchor_chain_filename(chain);
    join_path(dir, name.as_str())
}

// ---------------------------------------------------------------------------
// Ancestry
// ---------------------------------------------------------------------------

/// A process in a snapshot of all processes, with its parent. Times of creation
/// are given where they are known.
#[derive(Clone, Copy, Debug, PartialEq, Eq, Structural)]
pub struct Link {
    pub pid: u32,
    pub parent: u32,
    pub created: Option<u64>,
    pub parent_created: Option<u64>,
}

/// Whether a parent is as old as its child. Where that is not known it may be.
pub open spec fn in_order(parent: Option<u64>, child: Option<u64>) -> bool {
    match (parent, child) {
        (Some(p), Some(c)) => p <= c,
        _ => true,
    }
}

/// Tests whether a parent is as old as its child, so that its number has not been
/// given to another process since.
pub fn validate_parent_child_times(parent: Option<u64>, child: Option<u64>) -> (r: bool)
    ensures
        r == in_order(parent, child),
{
    match (parent, child) {
        (Some(p), Some(c)) => p <= c,
        _ => true,
    }
}

/// The place of a process in a snapshot, the last where there are several, or -1.
pub open spec fn place(links: Seq<Link>, pid: u32) -> int
    decreases links.len(),
{
    if links.len() == 0 {
        -1
    } else if links.last().pid == pid {
        links.len() - 1
    } else {
        place(links.drop_last(), pid)
    }
}

proof fn lemma_place(links: Seq<Link>, pid: u32)
    ensures
        -1 <= place(links, pid) < links.len(),
        place(links, pid) >= 0 ==> links[place(links, pid)].pid == pid,
    decreases links.len(),
{
    if links.len() > 0 && links.last().pid != pid {
        lemma_place(links.drop_last(), pid);
    }
}

fn find_link(links: &Vec<Link>, pid: u32) -> (r: Option<usize>)
    ensures
        match r {
            Some(i) => i < links.len() && place(links@, pid) == i,
            None => place(links@, pid) == -1,
        },
{
    let mut i: usize = links.len();
    proof {
        assert(links@.take(links@.len() as int) =~= links@);
    }
    while i > 0
        invariant
            i <= links.len(),
            place(links@, pid) == place(links@.take(i as int), pid),
        decreases i,
    {
        i -= 1;
        proof {
            assert(links@.take(i + 1).drop_last() =~= links@.take(i as int));
            assert(links@.take(i + 1).last() == links@[i as int]);
        }
        if links[i].pid == pid {
            return Some(i);
        }
    }
    None
}

/// How many processes of a snapshot have not been visited.
pub open spec fn unvisited(links: Seq<Link>, visited: Seq<u32>) -> nat
    decreases links.len(),
{
    if links.len() == 0 {
        0
    } else {
        unvisited(links.drop_last(), visited) + if visited.contains(links.last().pid) {
            0nat
        } else {
            1nat
        }
    }
}

proof fn lemma_visit(links: Seq<Link>, visited: Seq<u32>, pid: u32)
    ensures
        unvisited(links, visited.push(pid)) <= unvisited(links, visited),
        place(links, pid) >= 0 && !visited.contains(pid) ==> unvisited(links, visited.push(pid))
            < unvisited(links, visited),
    decreases links.len(),
{
    if links.len() > 0 {
        lemma_visit(links.drop_last(), visited, pid);
        let p = links.last().pid;
        if visited.contains(p) {
            let i = choose|i: int| 0 <= i < visited.len() && visited[i] == p;
            assert(visited.push(pid)[i] == p);
        }
        if p == pid {
            assert(visited.push(pid)[visited.len() as int] == pid);
        }
        if visited.push(pid).contains(p) && p != pid {
            let i = choose|i: int| 0 <= i < visited.len() + 1 && visited.push(pid)[i] == p;
            assert(visited[i] == p);
        }
    }
}

/// The process that comes above another one: its parent, where one is known, it is
/// another process, and it is as old.
pub open spec fn above(links: Seq<Link>, pid: u32) -> Option<u32> {
    let i = place(links, pid);
    if pid == 0 || i < 0 || links[i].parent == pid || !in_order(
        links[i].parent_created,
        links[i].created,
    ) {
        None
    } else {
        Some(links[i].parent)
    }
}

/// The chain of ancestors down to a process, without those that have been visited
/// already: parents that form a ring end the chain.
pub open spec fn ancestors(links: Seq<Link>, pid: u32, visited: Seq<u32>) -> Seq<u32>
    decreases unvisited(links, visited),
    via ancestors_decreases
{
    if visited.contains(pid) {
        Seq::empty()
    } else {
        match above(links, pid) {
            Some(p) => ancestors(links, p, visited.push(pid)).push(pid),
            None => seq![pid],
        }
    }
}

#[via_fn]
proof fn ancestors_decreases(links: Seq<Link>, pid: u32, visited: Seq<u32>) {
    lemma_visit(links, visited, pid);
}

fn listed(v: &Vec<u32>, x: u32) -> (r: bool)
    ensures
        r == v@.contains(x),
{
    let mut i: usize = 0;
    while i < v.len()
        invariant
            i <= v.len(),
            forall|j: int| 0 <= j < i ==> v@[j] != x,
        decreases v.len() - i,
    {
        if v[i] == x {
            return true;
        }
        i += 1;
    }
    false
}

/// Builds the chain of ancestors down to a process. Without a snapshot that is the
/// process alone.
pub fn get_ancestor_chain(pid: u32, links: &Option<Vec<Link>>) -> (r: Vec<u32>)
    ensures
        r@ == (match links {
            Some(l) => ancestors(l@, pid, Seq::empty()),
            None => seq![pid],
        }),
{
    let l = match links {
        Some(l) => l,
        None => {
            let mut out: Vec<u32> = Vec::new();
            out.push(pid);
            proof {
                assert(out@ =~= seq![pid]);
            }
            return out;
        },
    };
    let mut up: Vec<u32> = Vec::new();
    let mut current = pid;
    let ghost goal = ancestors(l@, pid, Seq::empty());
    proof {
        assert(up@ =~= Seq::<u32>::empty());
        assert(goal =~= ancestors(l@, current, up@) + up@.reverse());
    }
    let mut more = true;
    while more
        invariant
            goal == (if more {
                ancestors(l@, current, up@)
            } else {
                Seq::empty()
            }) + up@.reverse(),
        decreases unvisited(l@, up@) + if more {
            1int
        } else {
            0
        },
    {
        if listed(&up, current) {
            more = false;
        } else {
            let ghost before = up@;
            proof {
                lemma_visit(l@, before, current);
            }
            up.push(current);
            proof {
                assert(up@.reverse() =~= seq![current] + before.reverse());
            }
            let next: Option<u32> = if current == 0 {
                None
            } else {
                match find_link(l, current) {
                    Some(i) => {
                        let link = l[i];
                        if link.parent != current && validate_parent_child_times(
                            link.parent_created,
                            link.created,
                        ) {
                            Some(link.parent)
                        } else {
                            None
                        }
                    },
                    None => None,
                }
            };
            proof {
                assert(next == above(l@, current));
            }
            match next {
                Some(p) => {
                    proof {
                        lemma_place(l@, current);
                        assert(ancestors(l@, current, before) + before.reverse() =~= ancestors(
                            l@,
                            p,
                            up@,
                        ) + up@.reverse());
                    }
                    current = p;
                },
                None => {
                    proof {
                        assert(seq![current] + before.reverse() =~= Seq::<u32>::empty()
                            + up@.reverse());
                    }
                    more = false;
                },
            }
        }
    }
    proof {
        assert(goal =~= up@.reverse());
    }
    let mut out: Vec<u32> = Vec::new();
    let mut j: usize = up.len();
    proof {
        assert(out@ =~= up@.reverse().take(0));
    }
    while j > 0
        invariant
            j <= up.len(),
            out@ == up@.reverse().take(up.len() - j),
        decreases j,
    {
        j -= 1;
        out.push(up[j]);
        proof {
            let r = up@.reverse();
            assert(r.take(up.len() - j) =~= r.take(up.len() - j - 1).push(up@[j as int]));
        }
    }
    proof {
        assert(up@.reverse().take(up.len() as int) =~= up@.reverse());
    }
    out
}

/// A chain of ancestors ends with the process itself, and holds no process twice.
pub proof fn lemma_chain(links: Seq<Link>, pid: u32, visited: Seq<u32>)
    requires
        !visited.contains(pid),
    ensures
        ancestors(links, pid, visited).len() > 0,
        ancestors(links, pid, visited).last() == pid,
        ancestors(links, pid, visited).no_duplicates(),
        forall|p: u32| #[trigger]
            ancestors(links, pid, visited).contains(p) ==> !visited.contains(p),
    decreases unvisited(links, visited),
{
    match above(links, pid) {
        Some(p) => {
            let seen = visited.push(pid);
            lemma_visit(links, visited, pid);
            lemma_place(links, pid);
            let rest = ancestors(links, p, seen);
            assert(seen[visited.len() as int] == pid);
            if !seen.contains(p) {
                lemma_chain(links, p, seen);
            }
            assert forall|q: u32| #[trigger] rest.contains(q) implies !visited.contains(q)
                && q != pid by {
                if visited.contains(q) {
                    let i = choose|i: int| 0 <= i < visited.len() && visited[i] == q;
                    assert(seen[i] == q);
                }
            }
            let all = rest.push(pid);
            assert forall|i: int, j: int| 0 <= i < j < all.len() implies all[i] != all[j] by {
                if j == rest.len() {
                    assert(rest.contains(rest[i]));
                }
            }
            assert forall|q: u32| #[trigger] all.contains(q) implies !visited.contains(q) by {
                let i = choose|i: int| 0 <= i < all.len() && all[i] == q;
                if i < rest.len() {
                    assert(rest.contains(rest[i]));
                }
            }
        },
        None => {},
    }
}

} // verus!
