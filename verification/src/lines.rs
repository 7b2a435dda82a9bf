//! Lines: how what a process writes, chunk by chunk, is cut into lines.
use vstd::prelude::*;

verus! {

/// A line without the carriage return that it may end with.
pub open spec fn bare(line: Seq<u8>) -> Seq<u8> {
    if line.len() > 0 && line.last() == 13 {
        line.drop_last()
    } else {
        line
    }
}

/// The lines that a chunk completes after what was left before it, and what is left
/// behind it.
pub open spec fn cut(left: Seq<u8>, chunk: Seq<u8>) -> (Seq<Seq<u8>>, Seq<u8>)
    decreases chunk.len(),
{
    if chunk.len() == 0 {
        (Seq::empty(), left)
    } else {
        let (lines, rest) = cut(left, chunk.drop_last());
        if chunk.last() == 10 {
            (lines.push(bare(rest)), Seq::empty())
        } else {
            (lines, rest.push(chunk.last()))
        }
    }
}

/// The contents of some lines.
pub open spec fn contents(lines: Seq<Vec<u8>>) -> Seq<Seq<u8>> {
    lines.map_values(|l: Vec<u8>| l@)
}

/// Cuts what comes into lines.
#[derive(Debug)]
pub struct LineCutter {
    left: Vec<u8>,
}

impl View for LineCutter {
    type V = Seq<u8>;

    closed spec fn view(&self) -> Seq<u8> {
        self.left@
    }
}

impl LineCutter {
    /// A cutter that nothing is left in.
    pub fn new() -> (r: LineCutter)
        ensures
            r@ == Seq::<u8>::empty(),
    {
        LineCutter { left: Vec::new() }
    }

    /// Takes a chunk, and gives the lines that it completes.
    pub fn feed(&mut self, chunk: &[u8]) -> (r: Vec<Vec<u8>>)
        ensures
            (contents(r@), final(self)@) == cut(old(self)@, chunk@),
    {
        let ghost before = self@;
        let mut out: Vec<Vec<u8>> = Vec::new();
        let mut i: usize = 0;
        proof {
            assert(chunk@.take(0) =~= Seq::<u8>::empty());
            assert(contents(out@) =~= Seq::<Seq<u8>>::empty());
        }
        while i < chunk.len()
            invariant
                i <= chunk@.len(),
                (contents(out@), self@) == cut(before, chunk@.take(i as int)),
            decreases chunk@.len() - i,
        {
            let b = chunk[i];
            proof {
                assert(chunk@.take(i + 1).drop_last() =~= chunk@.take(i as int));
                assert(chunk@.take(i + 1).last() == b);
            }
            if b == 10 {
                let mut line: Vec<u8> = Vec::new();
                let ghost rest = self@;
                line.append(&mut self.left);
                if line.len() > 0 && line[line.len() - 1] == 13 {
                    let _ = line.pop();
                }
                let ghost lines = contents(out@);
                proof {
                    assert(line@ =~= bare(rest));
                    assert(self@ =~= Seq::<u8>::empty());
                }
                out.push(line);
                proof {
                    assert(contents(out@) =~= lines.push(bare(rest)));
                }
            } else {
                self.left.push(b);
            }
            i += 1;
        }
        proof {
            assert(chunk@.take(chunk@.len() as int) =~= chunk@);
        }
        out
    }

    /// What is left when nothing more comes: a last line, where it is not empty.
    pub fn finish(self) -> (r: Option<Vec<u8>>)
        ensures
            match r {
                Some(l) => l@ == self@ && l@.len() > 0,
                None => self@.len() == 0,
            },
    {
        if self.left.len() > 0 {
            Some(self.left)
        } else {
            None
        }
    }
}

/// Where the chunks are cut does not matter: two chunks give the lines of both
/// together.
pub proof fn lemma_chunks(left: Seq<u8>, a: Seq<u8>, b: Seq<u8>)
    ensures
        cut(left, a + b) == (
            cut(left, a).0 + cut(cut(left, a).1, b).0,
            cut(cut(left, a).1, b).1,
        ),
    decreases b.len(),
{
    if b.len() == 0 {
        assert(a + b =~= a);
        assert(cut(left, a).0 + Seq::<Seq<u8>>::empty() =~= cut(left, a).0);
    } else {
        lemma_chunks(left, a, b.drop_last());
        assert((a + b).drop_last() =~= a + b.drop_last());
        let first = cut(left, a);
        let second = cut(first.1, b.drop_last());
        assert((first.0 + second.0).push(bare(second.1)) =~= first.0 + second.0.push(
            bare(second.1),
        ));
    }
}

/// No line holds the end of a line, and neither does what is left.
pub proof fn lemma_no_ends(left: Seq<u8>, chunk: Seq<u8>)
    requires
        !left.contains(10),
    ensures
        !cut(left, chunk).1.contains(10),
        forall|i: int|
            0 <= i < cut(left, chunk).0.len() ==> !(#[trigger] cut(left, chunk).0[i]).contains(10),
    decreases chunk.len(),
{
    if chunk.len() > 0 {
        lemma_no_ends(left, chunk.drop_last());
        let (lines, rest) = cut(left, chunk.drop_last());
        assert forall|i: int| 0 <= i < bare(rest).len() implies #[trigger] bare(rest)[i] != 10 by {
            assert(rest[i] == bare(rest)[i]);
        }
        let (more, last) = cut(left, chunk);
        if chunk.last() == 10 {
            assert forall|i: int| 0 <= i < more.len() implies !(#[trigger] more[i]).contains(
                10,
            ) by {
                if i < lines.len() {
                    assert(more[i] == lines[i]);
                }
            }
        } else {
            assert forall|i: int| 0 <= i < last.len() implies #[trigger] last[i] != 10 by {
                if i < rest.len() {
                    assert(last[i] == rest[i]);
                }
            }
        }
    }
}

} // verus!
