//! The client: which root to talk to, and what to show of what it sends.
use crate::json;
use crate::json::{Js, Json};
use crate::platform;
use crate::protocol::{ProcessInfo, Response};
use crate::text;
use vstd::prelude::*;

verus! {

/// The message where there is no root to talk to.
pub const NO_ROOT: &'static str = "no psy root found — start one with 'psy up' or ensure 'psy mcp' is running";

// ---------------------------------------------------------------------------
// Finding a root
// ---------------------------------------------------------------------------

/// The last place of a process in a chain, or -1.
pub open spec fn last_place(chain: Seq<u32>, pid: u32) -> int
    decreases chain.len(),
{
    if chain.len() == 0 {
        -1
    } else if chain.last() == pid {
        chain.len() - 1
    } else {
        last_place(chain.drop_last(), pid)
    }
}

/// How many steps up from the end of one chain the nearest process of another
/// chain is, where the two have a process in common.
pub open spec fn distance(own: Seq<u32>, other: Seq<u32>) -> Option<int>
    decreases other.len(),
{
    if other.len() == 0 {
        None
    } else if last_place(own, other.last()) >= 0 {
        Some(own.len() - 1 - last_place(own, other.last()))
    } else {
        distance(own, other.drop_last())
    }
}

fn find_last(chain: &Vec<u32>, pid: u32) -> (r: Option<usize>)
    ensures
        match r {
            Some(i) => i < chain.len() && last_place(chain@, pid) == i,
            None => last_place(chain@, pid) == -1,
        },
{
    let mut i: usize = chain.len();
    proof {
        assert(chain@.take(chain@.len() as int) =~= chain@);
    }
    while i > 0
        invariant
            i <= chain.len(),
            last_place(chain@, pid) == last_place(chain@.take(i as int), pid),
        decreases i,
    {
        i -= 1;
        proof {
            assert(chain@.take(i + 1).drop_last() =~= chain@.take(i as int));
            assert(chain@.take(i + 1).last() == chain@[i as int]);
        }
        if chain[i] == pid {
            return Some(i);
        }
    }
    None
}

/// Measures how far up the nearest process of another chain is.
pub fn chain_distance(own: &Vec<u32>, other: &Vec<u32>) -> (r: Option<usize>)
    ensures
        match r {
            Some(d) => distance(own@, other@) == Some(d as int),
            None => distance(own@, other@) is None,
        },
{
    let mut i: usize = other.len();
    proof {
        assert(other@.take(other@.len() as int) =~= other@);
    }
    while i > 0
        invariant
            i <= other.len(),
            distance(own@, other@) == distance(own@, other@.take(i as int)),
        decreases i,
    {
        i -= 1;
        proof {
            assert(other@.take(i + 1).drop_last() =~= other@.take(i as int));
            assert(other@.take(i + 1).last() == other@[i as int]);
        }
        match find_last(own, other[i]) {
            Some(p) => {
                return Some(own.len() - 1 - p);
            },
            None => {},
        }
    }
    None
}

/// A file in the directory for anchors.
#[derive(Debug)]
pub struct Anchor {
    pub filename: String,
    /// When it was last changed, in nanoseconds since the start of 1970.
    pub modified: i128,
}

/// A root that can be talked to, unless its process is gone.
#[derive(Clone, Copy, Debug, PartialEq, Eq, Structural)]
pub struct Candidate {
    pub distance: usize,
    pub modified: i128,
    /// The place of its file in the directory.
    pub index: usize,
    pub root_pid: u32,
}

/// The root that a file stands for, where it has a chain in its name that has a
/// process in common with the caller's.
pub open spec fn candidate_at(
    own: Seq<u32>,
    anchors: Seq<Anchor>,
    extension: Seq<char>,
    i: int,
) -> Option<Candidate> {
    match platform::chain_in_name(anchors[i].filename@, extension) {
        Some(chain) => match distance(own, chain) {
            Some(d) => Some(
                Candidate {
                    distance: d as usize,
                    modified: anchors[i].modified,
                    index: i as usize,
                    root_pid: chain.last(),
                },
            ),
            None => None,
        },
        None => None,
    }
}

/// Which of two roots is tried first: the nearer one, then the one whose file is
/// newer, then the one that was found first.
pub open spec fn first(a: Candidate, b: Candidate) -> bool {
    ||| a.distance < b.distance
    ||| a.distance == b.distance && a.modified > b.modified
    ||| a.distance == b.distance && a.modified == b.modified && a.index < b.index
}

/// The order in which roots are tried.
pub open spec fn in_order(s: Seq<Candidate>) -> bool {
    forall|i: int, j: int| 0 <= i < j < s.len() ==> first(#[trigger] s[i], #[trigger] s[j])
}

fn goes_first(a: &Candidate, b: &Candidate) -> (r: bool)
    ensures
        r == first(*a, *b),
{
    a.distance < b.distance || (a.distance == b.distance && (a.modified > b.modified || (
    a.modified == b.modified && a.index < b.index)))
}

fn place_in(s: &mut Vec<Candidate>, c: Candidate)
    requires
        in_order(old(s)@),
        forall|i: int| 0 <= i < old(s)@.len() ==> (#[trigger] old(s)@[i]).index != c.index,
    ensures
        in_order(final(s)@),
        final(s)@.len() == old(s)@.len() + 1,
        exists|p: int| 0 <= p <= old(s)@.len() && final(s)@ == #[trigger] old(s)@.insert(p, c),
{
    let mut p: usize = 0;
    while p < s.len() && goes_first(&s[p], &c)
        invariant
            p <= s.len(),
            in_order(s@),
            s@ == old(s)@,
            forall|i: int| 0 <= i < s@.len() ==> (#[trigger] s@[i]).index != c.index,
            forall|i: int| 0 <= i < p ==> first(#[trigger] s@[i], c),
        decreases s.len() - p,
    {
        p += 1;
    }
    let ghost before = s@;
    proof {
        assert forall|i: int| p <= i < before.len() implies first(c, #[trigger] before[i]) by {
            assert(!first(before[p as int], c));
            assert(first(c, before[p as int]));
            if i > p {
                assert(first(before[p as int], before[i]));
            }
        }
    }
    s.insert(p, c);
    proof {
        assert(s@ == before.insert(p as int, c));
        assert forall|i: int, j: int| 0 <= i < j < s@.len() implies first(
            #[trigger] s@[i],
            #[trigger] s@[j],
        ) by {
            if i < p && j < p {
                assert(first(before[i], before[j]));
            } else if i < p && j > p {
                assert(first(before[i], before[j - 1]));
            } else if i > p {
                assert(first(before[i - 1], before[j - 1]));
            }
        }
    }
}

/// Lists the roots to try, in order: each of them is tried until one runs, and the
/// files of those that are gone are removed.
pub fn discover_candidates(own: &Vec<u32>, anchors: &Vec<Anchor>, extension: &str) -> (r: Vec<
    Candidate,
>)
    ensures
        in_order(r@),
        forall|c: Candidate| #[trigger]
            r@.contains(c) <==> (c.index < anchors@.len() && candidate_at(
                own@,
                anchors@,
                extension@,
                c.index as int,
            ) == Some(c)),
{
    let mut out: Vec<Candidate> = Vec::new();
    let mut i: usize = 0;
    while i < anchors.len()
        invariant
            i <= anchors.len(),
            in_order(out@),
            forall|k: int| 0 <= k < out@.len() ==> (#[trigger] out@[k]).index < i,
            forall|c: Candidate| #[trigger]
                out@.contains(c) <==> (c.index < i && candidate_at(
                    own@,
                    anchors@,
                    extension@,
                    c.index as int,
                ) == Some(c)),
        decreases anchors.len() - i,
    {
        let found = match platform::read_chain(anchors[i].filename.as_str(), extension) {
            Some(chain) => match chain_distance(own, &chain) {
                Some(d) => {
                    let root_pid: u32 = match platform::anchor_root(&chain) {
                        Some(p) => p,
                        None => {
                            proof {
                                assert(false);
                            }
                            0
                        },
                    };
                    Some(
                        Candidate {
                            distance: d,
                            modified: anchors[i].modified,
                            index: i,
                            root_pid,
                        },
                    )
                },
                None => None,
            },
            None => None,
        };
        proof {
            assert(found == candidate_at(own@, anchors@, extension@, i as int));
        }
        let ghost before = out@;
        match found {
            Some(c) => {
                place_in(&mut out, c);
                proof {
                    let p = choose|p: int|
                        0 <= p <= before.len() && out@ == #[trigger] before.insert(p, c);
                    assert forall|x: Candidate| #[trigger] out@.contains(x) <==> (before.contains(
                        x,
                    ) || x == c) by {
                        if before.contains(x) {
                            let k = choose|k: int| 0 <= k < before.len() && before[k] == x;
                            if k < p {
                                assert(out@[k] == x);
                            } else {
                                assert(out@[k + 1] == x);
                            }
                        }
                        if x == c {
                            assert(out@[p] == c);
                        }
                        if out@.contains(x) {
                            let k = choose|k: int| 0 <= k < out@.len() && out@[k] == x;
                            if k < p {
                                assert(before[k] == x);
                            } else if k > p {
                                assert(before[k - 1] == x);
                            }
                        }
                    }
                    assert forall|k: int| 0 <= k < out@.len() implies (#[trigger] out@[k]).index
                        < i + 1 by {
                        assert(out@.contains(out@[k]));
                        if before.contains(out@[k]) {
                            let m = choose|m: int|
                                0 <= m < before.len() && before[m] == out@[k];
                        }
                    }
                    assert forall|x: Candidate| #[trigger] out@.contains(x) <==> (x.index < i + 1
                        && candidate_at(own@, anchors@, extension@, x.index as int) == Some(
                        x,
                    )) by {
                        if x.index == i {
                            assert(!before.contains(x));
                        }
                    }
                }
            },
            None => {
                proof {
                    assert forall|x: Candidate| #[trigger] out@.contains(x) <==> (x.index < i + 1
                        && candidate_at(own@, anchors@, extension@, x.index as int) == Some(
                        x,
                    )) by {}
                }
            },
        }
        i += 1;
    }
    out
}

/// A list of roots in order is the only one with its members.
pub proof fn lemma_order_unique(a: Seq<Candidate>, b: Seq<Candidate>)
    requires
        in_order(a),
        in_order(b),
        forall|c: Candidate| a.contains(c) <==> b.contains(c),
    ensures
        a == b,
    decreases a.len() + b.len(),
{
    if a.len() == 0 {
        if b.len() > 0 {
            assert(b.contains(b[0]));
        }
        assert(a =~= b);
    } else if b.len() == 0 {
        assert(a.contains(a[0]));
    } else {
        assert(a.contains(a[0]));
        assert(b.contains(b[0]));
        let i = choose|i: int| 0 <= i < b.len() && b[i] == a[0];
        let j = choose|j: int| 0 <= j < a.len() && a[j] == b[0];
        if i > 0 && j > 0 {
            assert(first(b[0], b[i]));
            assert(first(a[0], a[j]));
        }
        assert(a[0] == b[0]);
        let x = a.skip(1);
        let y = b.skip(1);
        assert forall|p: int, q: int| 0 <= p < q < x.len() implies first(
            #[trigger] x[p],
            #[trigger] x[q],
        ) by {
            assert(first(a[p + 1], a[q + 1]));
        }
        assert forall|p: int, q: int| 0 <= p < q < y.len() implies first(
            #[trigger] y[p],
            #[trigger] y[q],
        ) by {
            assert(first(b[p + 1], b[q + 1]));
        }
        assert forall|c: Candidate| x.contains(c) <==> y.contains(c) by {
            if x.contains(c) {
                let p = choose|p: int| 0 <= p < x.len() && x[p] == c;
                assert(a[p + 1] == c);
                assert(first(a[0], a[p + 1]));
                assert(b.contains(c));
                let q = choose|q: int| 0 <= q < b.len() && b[q] == c;
                assert(q > 0);
                assert(y[q - 1] == c);
            }
            if y.contains(c) {
                let p = choose|p: int| 0 <= p < y.len() && y[p] == c;
                assert(b[p + 1] == c);
                assert(first(b[0], b[p + 1]));
                assert(a.contains(c));
                let q = choose|q: int| 0 <= q < a.len() && a[q] == c;
                assert(q > 0);
                assert(x[q - 1] == c);
            }
        }
        lemma_order_unique(x, y);
        assert(a =~= seq![a[0]] + x);
        assert(b =~= seq![b[0]] + y);
    }
}

/// Reads the path of a socket in an anchor that is not a socket itself.
pub fn socket_in_anchor(anchor: &str, contents: &str) -> (r: Result<String, String>)
    ensures
        match r {
            Ok(p) => p@ == text::trimmed(contents@) && p@.len() > 0,
            Err(e) => text::trimmed(contents@).len() == 0 && e@ == "anchor file "@ + anchor@
                + " is empty"@,
        },
{
    let path = text::trim(contents);
    let c = text::chars_of(path.as_str());
    if c.len() == 0 {
        Err(text::concat3("anchor file ", anchor, " is empty"))
    } else {
        Ok(path)
    }
}

// ---------------------------------------------------------------------------
// Showing what comes
// ---------------------------------------------------------------------------

/// A member of a value as a text, or another text where it is none.
pub open spec fn text_or(v: Js, key: Seq<char>, default: Seq<char>) -> Seq<char> {
    match json::text_member(v, key) {
        Some(s) => s,
        None => default,
    }
}

fn get_text_or(v: &Json, key: &str, default: &str) -> (r: String)
    ensures
        r@ == text_or(json::model(*v), key@, default@),
{
    match json::get_text(v, key) {
        Some(s) => text::copy(s.as_str()),
        None => text::copy(default),
    }
}

/// A log line as it is shown.
pub open spec fn shown_line(v: Js) -> Seq<char> {
    "["@ + text_or(v, "timestamp"@, ""@) + " "@ + text_or(v, "stream"@, "stdout"@) + "] "@
        + text_or(v, "content"@, ""@)
}

/// Shows a log line.
pub fn show_line(v: &Json) -> (r: String)
    ensures
        r@ == shown_line(json::model(*v)),
{
    let mut out = text::copy("[");
    text::push_text(&mut out, get_text_or(v, "timestamp", "").as_str());
    text::push_text(&mut out, " ");
    text::push_text(&mut out, get_text_or(v, "stream", "stdout").as_str());
    text::push_text(&mut out, "] ");
    text::push_text(&mut out, get_text_or(v, "content", "").as_str());
    out
}

/// What is shown of a line that came from a root. What is no JSON is shown as it is.
pub fn show_received(line: &str) -> (r: String)
    ensures
        r@ == (match json::document(line@) {
            Ok(v) => shown_line(v) + "\n"@,
            Err(_) => line@,
        }),
{
    match json::read(line) {
        Ok(v) => {
            let s = show_line(&v);
            text::concat2(s.as_str(), "\n")
        },
        Err(_) => text::copy(line),
    }
}

/// A whole number in a value, where it fits into 64 bits with a sign.
pub open spec fn whole_member(v: Js, key: Seq<char>) -> Option<i64> {
    match json::member(v, key) {
        Some(Js::Unsigned(n)) => if n <= i64::MAX {
            Some(n as i64)
        } else {
            None
        },
        Some(Js::Negative(n)) => Some(n),
        _ => None,
    }
}

fn get_whole(v: &Json, key: &str) -> (r: Option<i64>)
    ensures
        r == whole_member(json::model(*v), key@),
{
    match json::get(v, key) {
        Some(Json::Unsigned(n)) => {
            if *n <= i64::MAX as u64 {
                Some(*n as i64)
            } else {
                None
            }
        },
        Some(Json::Negative(n)) => Some(*n),
        _ => None,
    }
}

/// What comes in an attached session: something to show, or its end.
#[derive(Debug)]
pub enum Attached {
    /// Show this.
    Show(String),
    /// The session is over. Exit with the code, where there is one.
    Detached { notice: String, exit_code: Option<i32> },
}

/// Reads what comes in an attached session.
pub fn read_attached(name: &str, line: &str) -> (r: Attached)
    ensures
        match json::document(line@) {
            Ok(v) => if json::member(v, "detached"@) is Some {
                r matches Attached::Detached { notice, exit_code } && notice@ == "detached from "@
                    + name@ + ": "@ + text_or(v, "reason"@, "unknown"@) && exit_code == (
                match whole_member(v, "exit_code"@) {
                    Some(c) => Some(c as i32),
                    None => None,
                })
            } else {
                r matches Attached::Show(s) && s@ == shown_line(v) + "\n"@
            },
            Err(_) => r matches Attached::Show(s) && s@ == line@,
        },
{
    match json::read(line) {
        Ok(v) => {
            if json::get(&v, "detached").is_some() {
                let reason = get_text_or(&v, "reason", "unknown");
                let mut notice = text::concat3("detached from ", name, ": ");
                text::push_text(&mut notice, reason.as_str());
                let exit_code = match get_whole(&v, "exit_code") {
                    Some(c) => Some(c as i32),
                    None => None,
                };
                Attached::Detached { notice, exit_code }
            } else {
                let s = show_line(&v);
                Attached::Show(text::concat2(s.as_str(), "\n"))
            }
        },
        Err(_) => Attached::Show(text::copy(line)),
    }
}

/// A line of input as it is sent in an attached session.
pub fn stdin_payload(line: &str) -> (r: String)
    ensures
        r@ == json::compact(
            json::written(json::object_of(seq![("stdin"@, Js::Text(line@ + "\n"@))])),
        ) + "\n"@,
{
    let mut e: Vec<(String, Json)> = Vec::new();
    let data = text::concat2(line, "\n");
    e.push(json::entry("stdin", json::string(data.as_str())));
    proof {
        assert(json::entry_models(e@) =~= seq![("stdin"@, Js::Text(line@ + "\n"@))]);
    }
    let v = json::object(e);
    let out = json::write(&v);
    text::concat2(out.as_str(), "\n")
}

/// What stands against an attached session, by the first answer.
pub fn attach_error(r: &Response) -> (out: Option<String>)
    ensures
        text::opt_text(out) == (if r.ok {
            None
        } else {
            Some(
                match r.error {
                    Some(e) => e@,
                    None => "unknown error"@,
                },
            )
        }),
{
    if r.ok {
        None
    } else {
        match &r.error {
            Some(e) => Some(text::copy(e.as_str())),
            None => Some(text::copy("unknown error")),
        }
    }
}

/// The socket of a root below another, by the name of its unit, or why there is
/// none.
pub open spec fn socket_of(s: Seq<ProcessInfo>, name: Seq<char>) -> Result<Seq<char>, Seq<char>>
    decreases s.len(),
{
    if s.len() == 0 {
        Err("no unit '"@ + name + "'"@)
    } else if s[0].name@ != name {
        socket_of(s.skip(1), name)
    } else if !s[0].is_subroot {
        Err("unit '"@ + name + "' is not a sub-root"@)
    } else {
        match s[0].subroot_socket {
            Some(p) => Ok(p@),
            None => Err("unit '"@ + name + "' is not a sub-root that has registered"@),
        }
    }
}

/// Finds the socket of a root below another.
pub fn subroot_socket(processes: &Vec<ProcessInfo>, name: &str) -> (r: Result<String, String>)
    ensures
        match r {
            Ok(p) => socket_of(processes@, name@) == Ok::<Seq<char>, Seq<char>>(p@),
            Err(e) => socket_of(processes@, name@) == Err::<Seq<char>, Seq<char>>(e@),
        },
{
    let ghost all = processes@;
    let mut i: usize = 0;
    proof {
        assert(all.skip(0) =~= all);
    }
    while i < processes.len()
        invariant
            i <= processes.len(),
            all == processes@,
            socket_of(all, name@) == socket_of(all.skip(i as int), name@),
        decreases processes.len() - i,
    {
        proof {
            assert(all.skip(i as int)[0] == all[i as int]);
            assert(all.skip(i as int).skip(1) =~= all.skip(i + 1));
        }
        let p = &processes[i];
        if text::same(p.name.as_str(), name) {
            if !p.is_subroot {
                return Err(text::concat3("unit '", name, "' is not a sub-root"));
            }
            return match &p.subroot_socket {
                Some(x) => Ok(text::copy(x.as_str())),
                None => Err(
                    text::concat3("unit '", name, "' is not a sub-root that has registered"),
                ),
            };
        }
        i += 1;
    }
    Err(text::concat3("no unit '", name, "'"))
}

} // verus!
