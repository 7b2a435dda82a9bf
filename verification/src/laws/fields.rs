//! Where the fields of an object are found.
use crate::json;
use crate::json::Js;
use vstd::prelude::*;

verus! {

/// An object has under a key the value of the last entry with it.
pub proof fn lemma_field(s: Seq<(Seq<char>, Js)>, i: int)
    requires
        0 <= i < s.len(),
        forall|j: int| i < j < s.len() ==> (#[trigger] s[j]).0 != s[i].0,
    ensures
        json::member(json::object_of(s), s[i].0) == Some(s[i].1),
    decreases s.len(),
{
    if i < s.len() - 1 {
        let rest = s.drop_last();
        assert forall|j: int| i < j < rest.len() implies (#[trigger] rest[j]).0 != rest[i].0 by {
            assert(rest[j] == s[j] && rest[i] == s[i]);
        }
        lemma_field(rest, i);
        assert(s[s.len() - 1].0 != s[i].0);
    }
}

/// An object has nothing under a key that no entry has.
pub proof fn lemma_no_field(s: Seq<(Seq<char>, Js)>, key: Seq<char>)
    requires
        forall|j: int| 0 <= j < s.len() ==> (#[trigger] s[j]).0 != key,
    ensures
        json::member(json::object_of(s), key) is None,
    decreases s.len(),
{
    if s.len() > 0 {
        let rest = s.drop_last();
        assert forall|j: int| 0 <= j < rest.len() implies (#[trigger] rest[j]).0 != key by {
            assert(rest[j] == s[j]);
        }
        lemma_no_field(rest, key);
        assert(s[s.len() - 1].0 != key);
    }
}

} // verus!
