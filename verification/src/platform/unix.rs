//! Sockets, anchors and ancestry where there are Unix domain sockets.
use crate::platform;
use crate::text;
use vstd::prelude::*;

verus! {

/// The bytes that the path of a socket can take, with the one that ends it.
pub const UNIX_SOCK_MAX: usize = 104;

/// The directory for sockets that no other directory is given for.
pub open spec fn own_dir(uid: u32) -> Seq<char> {
    "/tmp/psy-"@ + text::decimal(uid as nat)
}

/// The directory for sockets: below the runtime directory, where there is one.
pub open spec fn socket_dir(runtime_dir: Option<Seq<char>>, uid: u32) -> Seq<char> {
    match runtime_dir {
        Some(d) => platform::below(d, "psy"@),
        None => own_dir(uid),
    }
}

/// Picks the directory for sockets.
pub fn primary_socket_dir(runtime_dir: &Option<String>, uid: u32) -> (r: String)
    ensures
        r@ == socket_dir(text::opt_text(*runtime_dir), uid),
{
    match runtime_dir {
        Some(d) => platform::join_path(d.as_str(), "psy"),
        None => text::concat2("/tmp/psy-", text::decimal_of(uid as u128).as_str()),
    }
}

/// Whether the path of a socket is short enough.
pub open spec fn fits(path: Seq<char>) -> bool {
    vstd::utf8::encode_utf8(path).len() < UNIX_SOCK_MAX
}

/// The name of the socket of a process.
pub open spec fn socket_name(pid: u32) -> Seq<char> {
    text::decimal(pid as nat) + ".sock"@
}

/// The path of the socket of a process: the first that is short enough.
pub open spec fn socket_at(dir: Seq<char>, uid: u32, pid: u32) -> Seq<char> {
    let first = platform::below(dir, socket_name(pid));
    let second = own_dir(uid) + "/"@ + socket_name(pid);
    if fits(first) {
        first
    } else if fits(second) {
        second
    } else {
        "/tmp/p-"@ + socket_name(pid)
    }
}

/// Picks the path of the socket of a process.
pub fn socket_path(dir: &str, uid: u32, pid: u32) -> (r: String)
    ensures
        r@ == socket_at(dir@, uid, pid),
{
    let name = text::concat2(text::decimal_of(pid as u128).as_str(), ".sock");
    let first = platform::join_path(dir, name.as_str());
    if text::byte_len(first.as_str()) < UNIX_SOCK_MAX {
        return first;
    }
    let own = text::concat2("/tmp/psy-", text::decimal_of(uid as u128).as_str());
    let second = text::concat3(own.as_str(), "/", name.as_str());
    if text::byte_len(second.as_str()) < UNIX_SOCK_MAX {
        return second;
    }
    text::concat2("/tmp/p-", name.as_str())
}

/// The directory for anchor files.
pub open spec fn anchors_dir(dir: Seq<char>) -> Seq<char> {
    platform::below(dir, "roots"@)
}

/// Picks the directory for anchor files.
pub fn roots_dir(dir: &str) -> (r: String)
    ensures
        r@ == anchors_dir(dir@),
{
    platform::join_path(dir, "roots")
}

/// The file name of an anchor.
pub fn anchor_chain_filename(chain: &Vec<u32>) -> (r: String)
    ensures
        r@ == platform::chain_name(chain@, ".sock"@),
{
    platform::chain_filename(chain, ".sock")
}

/// Reads the chain in the file name of an anchor.
pub fn parse_anchor_chain(filename: &str) -> (r: Option<Vec<u32>>)
    ensures
        match r {
            Some(v) => platform::chain_in_name(filename@, ".sock"@) == Some(v@),
            None => platform::chain_in_name(filename@, ".sock"@) is None,
        },
{
    platform::read_chain(filename, ".sock")
}

/// The paths of an anchor and of its socket: one and the same where it is short
/// enough, else the socket has a place of its own.
pub open spec fn anchor_paths(dir: Seq<char>, chain: Seq<u32>) -> (Seq<char>, Seq<char>) {
    let anchor = platform::below(anchors_dir(dir), platform::chain_name(chain, ".sock"@));
    if fits(anchor) {
        (anchor, anchor)
    } else {
        (
            anchor,
            platform::below(
                platform::below(dir, "s"@),
                socket_name(
                    if chain.len() > 0 {
                        chain.last()
                    } else {
                        0
                    },
                ),
            ),
        )
    }
}

/// Picks the paths of an anchor and of its socket.
pub fn anchor_socket_path(dir: &str, chain: &Vec<u32>) -> (r: (String, String))
    ensures
        (r.0@, r.1@) == anchor_paths(dir@, chain@),
{
    let roots = roots_dir(dir);
    let name = anchor_chain_filename(chain);
    let anchor = platform::join_path(roots.as_str(), name.as_str());
    if text::byte_len(anchor.as_str()) < UNIX_SOCK_MAX {
        let socket = text::copy(anchor.as_str());
        return (anchor, socket);
    }
    let pid: u32 = match platform::anchor_root(chain) {
        Some(p) => p,
        None => 0,
    };
    let sub_dir = platform::join_path(dir, "s");
    let file = text::concat2(text::decimal_of(pid as u128).as_str(), ".sock");
    (anchor, platform::join_path(sub_dir.as_str(), file.as_str()))
}

// ---------------------------------------------------------------------------
// Stale sockets
// ---------------------------------------------------------------------------

/// The last position of `c` in `s`, or -1.
pub open spec fn last_position(s: Seq<char>, c: char) -> int
    decreases s.len(),
{
    if s.len() == 0 {
        -1
    } else if s.last() == c {
        s.len() - 1
    } else {
        last_position(s.drop_last(), c)
    }
}

fn find_last(s: &Vec<char>, c: char) -> (r: Option<usize>)
    ensures
        match r {
            Some(i) => i < s.len() && last_position(s@, c) == i,
            None => last_position(s@, c) == -1,
        },
{
    let mut i: usize = s.len();
    proof {
        assert(s@.take(s@.len() as int) =~= s@);
    }
    while i > 0
        invariant
            i <= s.len(),
            last_position(s@, c) == last_position(s@.take(i as int), c),
        decreases i,
    {
        i -= 1;
        proof {
            assert(s@.take(i + 1).drop_last() =~= s@.take(i as int));
            assert(s@.take(i + 1).last() == s@[i as int]);
        }
        if s[i] == c {
            return Some(i);
        }
    }
    None
}

/// A file name without its extension: what stands before its last dot, unless that
/// is nothing.
pub open spec fn stem(filename: Seq<char>) -> Seq<char> {
    if filename == ".."@ {
        filename
    } else if last_position(filename, '.') > 0 {
        filename.take(last_position(filename, '.'))
    } else {
        filename
    }
}

/// The process whose socket a file is, by its name. The file is stale once that
/// process is gone.
pub fn socket_owner(filename: &str) -> (r: Option<u32>)
    ensures
        r is Some <==> text::unsigned(stem(filename@), u32::MAX as nat) is Some,
        r matches Some(p) ==> text::unsigned(stem(filename@), u32::MAX as nat) == Some(p as nat),
{
    let f = text::chars_of(filename);
    if text::same(filename, "..") {
        return text::parse_u32(&f);
    }
    match find_last(&f, '.') {
        Some(i) => {
            if i > 0 {
                let s = text::part(&f, 0, i);
                proof {
                    assert(s@ =~= filename@.take(i as int));
                }
                text::parse_u32(&s)
            } else {
                text::parse_u32(&f)
            }
        },
        None => text::parse_u32(&f),
    }
}

// ---------------------------------------------------------------------------
// Ancestry
// ---------------------------------------------------------------------------

/// The chain of ancestors from the first that is known down to a process. Each
/// answer says what the parent of the process before it is, if that is known.
pub open spec fn ancestors(pid: u32, answers: Seq<Option<u32>>) -> Seq<u32>
    decreases answers.len(),
{
    if pid <= 1 || answers.len() == 0 {
        seq![pid]
    } else {
        match answers[0] {
            Some(p) => if p != pid && p != 0 {
                ancestors(p, answers.skip(1)).push(pid)
            } else {
                seq![pid]
            },
            None => seq![pid],
        }
    }
}

/// The process whose parent has to be found out next, where one has.
pub open spec fn next_unknown(pid: u32, answers: Seq<Option<u32>>) -> Option<u32>
    decreases answers.len(),
{
    if pid <= 1 {
        None
    } else if answers.len() == 0 {
        Some(pid)
    } else {
        match answers[0] {
            Some(p) => if p != pid && p != 0 {
                next_unknown(p, answers.skip(1))
            } else {
                None
            },
            None => None,
        }
    }
}

/// Builds the chain of ancestors from the first that is known down to a process.
pub fn get_ancestor_chain(pid: u32, answers: &Vec<Option<u32>>) -> (r: Vec<u32>)
    ensures
        r@ == ancestors(pid, answers@),
{
    let mut up: Vec<u32> = Vec::new();
    let mut current = pid;
    let mut i: usize = 0;
    let mut done = false;
    proof {
        assert(answers@.skip(0) =~= answers@);
        assert(ancestors(pid, answers@) =~= ancestors(current, answers@.skip(0)) + up@.reverse());
    }
    while !done && current > 1 && i < answers.len()
        invariant
            i <= answers.len(),
            ancestors(pid, answers@) == (if done {
                seq![current]
            } else {
                ancestors(current, answers@.skip(i as int))
            }) + up@.reverse(),
        decreases answers.len() - i + if done {
            0int
        } else {
            1
        },
    {
        let ghost rest = answers@.skip(i as int);
        proof {
            assert(rest[0] == answers@[i as int]);
            assert(rest.skip(1) =~= answers@.skip(i + 1));
        }
        match answers[i] {
            Some(p) if p != current && p != 0 => {
                let ghost before = up@;
                up.push(current);
                proof {
                    assert(up@.reverse() =~= seq![current] + before.reverse());
                    assert(ancestors(current, rest) + before.reverse() =~= ancestors(
                        p,
                        rest.skip(1),
                    ) + up@.reverse());
                }
                current = p;
                i += 1;
            },
            _ => {
                done = true;
            },
        }
    }
    let mut out: Vec<u32> = Vec::new();
    out.push(current);
    let mut j: usize = up.len();
    proof {
        assert(out@ =~= seq![current] + up@.reverse().take(0));
    }
    while j > 0
        invariant
            j <= up.len(),
            out@ == seq![current] + up@.reverse().take(up.len() - j),
        decreases j,
    {
        j -= 1;
        out.push(up[j]);
        proof {
            let r = up@.reverse();
            assert(r.take(up.len() - j) =~= r.take(up.len() - j - 1).push(up@[j as int]));
            assert(out@ =~= seq![current] + r.take(up.len() - j));
        }
    }
    proof {
        assert(up@.reverse().take(up.len() as int) =~= up@.reverse());
    }
    out
}

/// Tells whose parent has to be found out next.
pub fn next_lookup(pid: u32, answers: &Vec<Option<u32>>) -> (r: Option<u32>)
    ensures
        r == next_unknown(pid, answers@),
{
    let mut current = pid;
    let mut i: usize = 0;
    proof {
        assert(answers@.skip(0) =~= answers@);
    }
    while current > 1 && i < answers.len()
        invariant
            i <= answers.len(),
            next_unknown(pid, answers@) == next_unknown(current, answers@.skip(i as int)),
        decreases answers.len() - i,
    {
        proof {
            assert(answers@.skip(i as int)[0] == answers@[i as int]);
            assert(answers@.skip(i as int).skip(1) =~= answers@.skip(i + 1));
        }
        match answers[i] {
            Some(p) if p != current && p != 0 => {
                current = p;
                i += 1;
            },
            _ => {
                return None;
            },
        }
    }
    if current > 1 {
        Some(current)
    } else {
        None
    }
}

/// A chain of ancestors ends with the process itself, whatever is known.
pub proof fn lemma_chain_ends_with_process(pid: u32, answers: Seq<Option<u32>>)
    ensures
        ancestors(pid, answers).len() > 0,
        ancestors(pid, answers).last() == pid,
{
}

/// Once nothing has to be found out any more, further answers change nothing.
pub proof fn lemma_chain_complete(pid: u32, answers: Seq<Option<u32>>, more: Seq<Option<u32>>)
    requires
        next_unknown(pid, answers) is None,
    ensures
        ancestors(pid, answers + more) == ancestors(pid, answers),
    decreases answers.len(),
{
    if pid > 1 && answers.len() > 0 {
        assert((answers + more)[0] == answers[0]);
        match answers[0] {
            Some(p) => {
                if p != pid && p != 0 {
                    assert((answers + more).skip(1) =~= answers.skip(1) + more);
                    lemma_chain_complete(p, answers.skip(1), more);
                }
            },
            None => {},
        }
    }
}

/// The parent in the text that Linux keeps on a process: the second word after the
/// command, which ends with the last closing bracket.
pub open spec fn parent_in(stat: Seq<char>) -> Option<nat> {
    let p = last_position(stat, ')');
    let w = text::words(stat.skip(p + 1));
    if p < 0 || w.len() < 2 {
        None
    } else {
        text::unsigned(w[1], u32::MAX as nat)
    }
}

/// Reads the parent in the text that Linux keeps on a process.
pub fn parent_in_stat(stat: &str) -> (r: Option<u32>)
    ensures
        r is Some <==> parent_in(stat@) is Some,
        r matches Some(p) ==> parent_in(stat@) == Some(p as nat),
{
    let s = text::chars_of(stat);
    match find_last(&s, ')') {
        Some(i) => {
            let rest = text::string_of(&text::part(&s, i + 1, s.len()));
            proof {
                assert(rest@ =~= stat@.skip(i + 1));
            }
            let w = text::words_of(rest.as_str());
            proof {
                assert(text::texts(w@).len() == w@.len());
            }
            if w.len() < 2 {
                return None;
            }
            proof {
                assert(text::texts(w@)[1] == w@[1]@);
            }
            text::parse_u32(&text::chars_of(w[1].as_str()))
        },
        None => None,
    }
}

} // verus!
