//! Where roots are found: process ancestry, socket paths and anchor files.
use crate::text;
use vstd::prelude::*;

pub mod paths;
pub mod unix;
pub mod windows;

verus! {

/// The kind of operating system that a root runs on.
#[derive(Clone, Copy, Debug, PartialEq, Eq, Structural)]
pub enum System {
    Unix,
    Windows,
}

/// A path below a directory, where paths are parted by `/`.
pub open spec fn below(dir: Seq<char>, name: Seq<char>) -> Seq<char> {
    if name.len() > 0 && name[0] == '/' {
        name
    } else if dir.len() == 0 || dir.last() == '/' {
        dir + name
    } else {
        dir + "/"@ + name
    }
}

/// Makes a path below a directory, where paths are parted by `/`.
pub fn join_path(dir: &str, name: &str) -> (r: String)
    ensures
        r@ == below(dir@, name@),
{
    let d = text::chars_of(dir);
    let n = text::chars_of(name);
    if n.len() > 0 && n[0] == '/' {
        text::copy(name)
    } else if d.len() == 0 || d[d.len() - 1] == '/' {
        text::concat2(dir, name)
    } else {
        text::concat3(dir, "/", name)
    }
}

// ---------------------------------------------------------------------------
// Chains of process ids
// ---------------------------------------------------------------------------

/// The numbers of a chain in decimal.
pub open spec fn chain_parts(chain: Seq<u32>) -> Seq<Seq<char>> {
    chain.map_values(|p: u32| text::decimal(p as nat))
}

/// A file name that holds a chain: the numbers with hyphens between them, and an
/// extension.
pub open spec fn chain_name(chain: Seq<u32>, extension: Seq<char>) -> Seq<char> {
    text::joined(chain_parts(chain), "-"@) + extension
}

/// Builds a file name that holds a chain.
pub fn chain_filename(chain: &Vec<u32>, extension: &str) -> (r: String)
    ensures
        r@ == chain_name(chain@, extension@),
{
    let mut parts: Vec<String> = Vec::new();
    let mut i: usize = 0;
    while i < chain.len()
        invariant
            i <= chain.len(),
            parts@.len() == i,
            forall|j: int| 0 <= j < i ==> (#[trigger] parts@[j])@ == text::decimal(chain@[j] as nat),
        decreases chain.len() - i,
    {
        parts.push(text::decimal_of(chain[i] as u128));
        i += 1;
    }
    proof {
        assert(text::texts(parts@) =~= chain_parts(chain@));
    }
    let joined = text::join(&parts, "-");
    text::concat2(joined.as_str(), extension)
}

/// The numbers that some texts denote, where each denotes one of 32 bits.
pub open spec fn pids_of(parts: Seq<Seq<char>>) -> Option<Seq<u32>>
    decreases parts.len(),
{
    if parts.len() == 0 {
        Some(Seq::empty())
    } else {
        match (pids_of(parts.drop_last()), text::unsigned(parts.last(), u32::MAX as nat)) {
            (Some(s), Some(n)) => Some(s.push(n as u32)),
            _ => None,
        }
    }
}

/// The chain that a file name holds, where it has the extension.
pub open spec fn chain_in_name(filename: Seq<char>, extension: Seq<char>) -> Option<Seq<u32>> {
    if text::ends_with(filename, extension) {
        pids_of(text::split(filename.take(filename.len() - extension.len()), '-'))
    } else {
        None
    }
}

proof fn lemma_pids_none(parts: Seq<Seq<char>>, k: int)
    requires
        0 <= k <= parts.len(),
        pids_of(parts.take(k)) is None,
    ensures
        pids_of(parts) is None,
    decreases parts.len() - k,
{
    if k < parts.len() {
        assert(parts.take(k + 1).drop_last() =~= parts.take(k));
        lemma_pids_none(parts, k + 1);
    } else {
        assert(parts.take(k) =~= parts);
    }
}

/// Reads the chain that a file name holds.
pub fn read_chain(filename: &str, extension: &str) -> (r: Option<Vec<u32>>)
    ensures
        match r {
            Some(v) => chain_in_name(filename@, extension@) == Some(v@),
            None => chain_in_name(filename@, extension@) is None,
        },
{
    let f = text::chars_of(filename);
    let x = text::chars_of(extension);
    if f.len() < x.len() || !text::matches_at(&f, &x, f.len() - x.len()) {
        return None;
    }
    let stem = text::part(&f, 0, f.len() - x.len());
    proof {
        assert(stem@ =~= filename@.take(filename@.len() - extension@.len()));
    }
    let pieces = text::split_at_char(&stem, '-');
    let ghost parts = text::split(stem@, '-');
    let mut out: Vec<u32> = Vec::new();
    let mut i: usize = 0;
    proof {
        assert(parts.take(0) =~= Seq::<Seq<char>>::empty());
        assert(out@ =~= Seq::<u32>::empty());
    }
    while i < pieces.len()
        invariant
            i <= pieces.len(),
            pieces@.map_values(|v: Vec<char>| v@) == parts,
            chain_in_name(filename@, extension@) == pids_of(parts),
            pids_of(parts.take(i as int)) == Some(out@),
        decreases pieces.len() - i,
    {
        proof {
            assert(parts.take(i + 1).drop_last() =~= parts.take(i as int));
            assert(parts[i as int] == pieces@.map_values(|v: Vec<char>| v@)[i as int]);
        }
        match text::parse_u32(&pieces[i]) {
            Some(n) => {
                out.push(n);
            },
            None => {
                proof {
                    lemma_pids_none(parts, i + 1);
                }
                return None;
            },
        }
        i += 1;
    }
    proof {
        assert(parts.take(parts.len() as int) =~= parts);
    }
    Some(out)
}

proof fn lemma_pids_of_parts(chain: Seq<u32>)
    ensures
        pids_of(chain_parts(chain)) == Some(chain),
    decreases chain.len(),
{
    let parts = chain_parts(chain);
    if chain.len() > 0 {
        assert(parts.drop_last() =~= chain_parts(chain.drop_last()));
        lemma_pids_of_parts(chain.drop_last());
        text::lemma_decimal_read_back(chain.last() as nat);
        assert(chain.drop_last().push(chain.last()) =~= chain);
    } else {
        assert(chain =~= Seq::<u32>::empty());
    }
}

/// A chain that is written into a file name is read back from it. Only an empty
/// chain is not.
pub proof fn lemma_chain_read_back(chain: Seq<u32>, extension: Seq<char>)
    requires
        chain.len() > 0,
    ensures
        chain_in_name(chain_name(chain, extension), extension) == Some(chain),
{
    reveal_strlit("-");
    let parts = chain_parts(chain);
    let stem = text::joined(parts, "-"@);
    let name = stem + extension;
    assert(name.subrange(stem.len() as int, name.len() as int) =~= extension);
    assert(name.take(stem.len() as int) =~= stem);
    assert("-"@ =~= seq!['-']);
    assert forall|i: int| 0 <= i < parts.len() implies !(#[trigger] parts[i]).contains('-') by {
        text::lemma_decimal_read_back(chain[i] as nat);
        assert forall|j: int| 0 <= j < parts[i].len() implies parts[i][j] != '-' by {
            assert(text::is_digit(text::decimal(chain[i] as nat)[j]));
        }
    }
    text::lemma_split_joined(parts, '-');
    lemma_pids_of_parts(chain);
}

/// The process that an anchor file with a chain stands for: the last of the chain.
/// The file is stale once that process is gone.
pub fn anchor_root(chain: &Vec<u32>) -> (r: Option<u32>)
    ensures
        r == if chain@.len() > 0 {
            Some(chain@.last())
        } else {
            None
        },
{
    if chain.len() > 0 {
        Some(chain[chain.len() - 1])
    } else {
        None
    }
}

} // verus!
