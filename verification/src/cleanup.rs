//! The helper that cleans up after a root: it is told the processes that the root
//! starts, and ends them once the root is gone.
use crate::text;
use vstd::prelude::*;

verus! {

/// The variable that names the file descriptor on which processes are announced.
pub const CLEANUP_FD_ENV: &'static str = "PSY_CLEANUP_FD";

/// The process that a line announces, where it announces one.
pub open spec fn announced(line: Seq<char>) -> Option<u32> {
    match text::unsigned(text::trimmed(line), u32::MAX as nat) {
        Some(n) => Some(n as u32),
        None => None,
    }
}

/// The line that announces a process.
pub open spec fn announcement(pid: u32) -> Seq<char> {
    text::decimal(pid as nat) + "\n"@
}

/// Writes the line that announces a process.
pub fn announce(pid: u32) -> (r: String)
    ensures
        r@ == announcement(pid),
{
    text::concat2(text::decimal_of(pid as u128).as_str(), "\n")
}

/// The processes that some lines announce.
pub open spec fn all_announced(lines: Seq<Seq<char>>) -> Set<u32>
    decreases lines.len(),
{
    if lines.len() == 0 {
        Set::empty()
    } else {
        match announced(lines.last()) {
            Some(p) => all_announced(lines.drop_last()).insert(p),
            None => all_announced(lines.drop_last()),
        }
    }
}

/// Notes the process that a line announces. A line that announces none is passed
/// over, and no process is noted twice.
pub fn note_line(pids: &mut Vec<u32>, line: &str)
    requires
        old(pids)@.no_duplicates(),
    ensures
        final(pids)@.no_duplicates(),
        final(pids)@.to_set() == (match announced(line@) {
            Some(p) => old(pids)@.to_set().insert(p),
            None => old(pids)@.to_set(),
        }),
{
    let t = text::trim(line);
    let c = text::chars_of(t.as_str());
    let p = match text::parse_u32(&c) {
        Some(p) => p,
        None => {
            return;
        },
    };
    let mut i: usize = 0;
    while i < pids.len()
        invariant
            i <= pids.len(),
            pids@ == old(pids)@,
            pids@.no_duplicates(),
            announced(line@) == Some(p),
            forall|j: int| 0 <= j < i ==> pids@[j] != p,
        decreases pids.len() - i,
    {
        if pids[i] == p {
            proof {
                assert(pids@.contains(p));
                assert(pids@.to_set().insert(p) =~= pids@.to_set());
            }
            return;
        }
        i += 1;
    }
    let ghost before = pids@;
    pids.push(p);
    proof {
        assert(pids@.to_set() =~= before.to_set().insert(p)) by {
            assert forall|x: u32| #[trigger]
                pids@.to_set().contains(x) <==> before.to_set().insert(p).contains(x) by {
                if before.contains(x) {
                    let k = choose|k: int| 0 <= k < before.len() && before[k] == x;
                    assert(pids@[k] == x);
                }
                if x == p {
                    assert(pids@[before.len() as int] == p);
                }
            }
        }
    }
}

/// Lists the processes that some lines announce.
pub fn announced_in(lines: &Vec<String>) -> (r: Vec<u32>)
    ensures
        r@.no_duplicates(),
        r@.to_set() == all_announced(text::texts(lines@)),
{
    let mut out: Vec<u32> = Vec::new();
    let ghost all = text::texts(lines@);
    let mut i: usize = 0;
    proof {
        assert(out@.to_set() =~= all_announced(all.take(0)));
    }
    while i < lines.len()
        invariant
            i <= lines.len(),
            all == text::texts(lines@),
            out@.no_duplicates(),
            out@.to_set() == all_announced(all.take(i as int)),
        decreases lines.len() - i,
    {
        note_line(&mut out, lines[i].as_str());
        proof {
            assert(all.take(i + 1).drop_last() =~= all.take(i as int));
            assert(all.take(i + 1).last() == lines@[i as int]@);
        }
        i += 1;
    }
    proof {
        assert(all.take(all.len() as int) =~= all);
    }
    out
}

/// A process that is announced is noted: its line is read back.
pub proof fn lemma_announcement_read_back(pid: u32)
    ensures
        announced(announcement(pid)) == Some(pid),
{
    reveal_strlit("\n");
    text::lemma_decimal_read_back(pid as nat);
    let d = text::decimal(pid as nat);
    let s = announcement(pid);
    assert(s[0] == d[0]);
    assert(text::is_digit(d[0]));
    assert(text::trim_start(s) == s);
    assert(s.last() == '\n');
    assert(s.drop_last() =~= d);
    assert(text::is_digit(d[d.len() - 1]));
    reveal_with_fuel(text::trim_end, 2);
    assert(text::trim_end(s) == d);
}

} // verus!
