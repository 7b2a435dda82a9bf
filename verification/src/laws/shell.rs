//! Command lines: how a shell splits them, and what is put into them.
use crate::names::NameMap;
use crate::psyfile;
use crate::shell;
use crate::text;
use vstd::prelude::*;

verus! {

/// Whether a text refers to no variable.
pub open spec fn no_reference(s: Seq<char>) -> bool {
    forall|i: int| 0 <= i < s.len() - 1 ==> !(#[trigger] s[i] == '$' && s[i + 1] == '{')
}

/// The word that is being read, with one more character.
pub open spec fn longer(word: Option<Seq<char>>, c: char) -> Seq<char> {
    match word {
        Some(w) => w.push(c),
        None => seq![c],
    }
}

/// The words that a POSIX shell splits a line into, with `word` read so far: they are
/// parted by spaces, a backslash makes the next character literal, and so do single
/// quotes for all that stands between them. None where a quote is not closed.
pub open spec fn split_from(s: Seq<char>, word: Option<Seq<char>>, inside: bool) -> Option<
    Seq<Seq<char>>,
>
    decreases s.len(),
{
    if s.len() == 0 {
        if inside {
            None
        } else {
            match word {
                Some(w) => Some(seq![w]),
                None => Some(Seq::empty()),
            }
        }
    } else if inside {
        if s[0] == '\'' {
            split_from(s.skip(1), word, false)
        } else {
            split_from(s.skip(1), Some(longer(word, s[0])), true)
        }
    } else if s[0] == ' ' {
        match (word, split_from(s.skip(1), None, false)) {
            (Some(w), Some(r)) => Some(seq![w] + r),
            (None, Some(r)) => Some(r),
            _ => None,
        }
    } else if s[0] == '\'' {
        split_from(
            s.skip(1),
            match word {
                Some(w) => Some(w),
                None => Some(Seq::empty()),
            },
            true,
        )
    } else if s[0] == '\\' {
        if s.len() < 2 {
            None
        } else {
            split_from(s.skip(2), Some(longer(word, s[1])), false)
        }
    } else {
        split_from(s.skip(1), Some(longer(word, s[0])), false)
    }
}

/// The words that a POSIX shell splits a line into.
pub open spec fn split_line(s: Seq<char>) -> Option<Seq<Seq<char>>> {
    split_from(s, None, false)
}

/// Behind a line that can be split and a space, the rest is split for itself.
proof fn lemma_split_behind(
    a: Seq<char>,
    b: Seq<char>,
    word: Option<Seq<char>>,
    inside: bool,
    words: Seq<Seq<char>>,
    more: Seq<Seq<char>>,
)
    requires
        split_from(a, word, inside) == Some(words),
        split_line(b) == Some(more),
    ensures
        split_from(a + seq![' '] + b, word, inside) == Some(words + more),
    decreases a.len(),
{
    let s = a + seq![' '] + b;
    if a.len() == 0 {
        assert(s[0] == ' ');
        assert(s.skip(1) =~= b);
        match word {
            Some(w) => {
                assert(seq![w] + more =~= words + more);
            },
            None => {
                assert(words + more =~= more);
            },
        }
    } else {
        assert(s[0] == a[0]);
        assert(s.skip(1) =~= a.skip(1) + seq![' '] + b);
        if inside {
            if a[0] == '\'' {
                lemma_split_behind(a.skip(1), b, word, false, words, more);
            } else {
                lemma_split_behind(a.skip(1), b, Some(longer(word, a[0])), true, words, more);
            }
        } else if a[0] == ' ' {
            let rest = split_from(a.skip(1), None, false)->0;
            lemma_split_behind(a.skip(1), b, None, false, rest, more);
            match word {
                Some(w) => {
                    assert(seq![w] + (rest + more) =~= words + more);
                },
                None => {},
            }
        } else if a[0] == '\'' {
            let w = match word {
                Some(w) => Some(w),
                None => Some(Seq::<char>::empty()),
            };
            lemma_split_behind(a.skip(1), b, w, true, words, more);
        } else if a[0] == '\\' {
            assert(a.len() >= 2);
            assert(s[1] == a[1]);
            assert(s.skip(2) =~= a.skip(2) + seq![' '] + b);
            lemma_split_behind(a.skip(2), b, Some(longer(word, a[1])), false, words, more);
        } else {
            lemma_split_behind(a.skip(1), b, Some(longer(word, a[0])), false, words, more);
        }
    }
}

proof fn lemma_plain_is_a_word(s: Seq<char>, word: Seq<char>)
    requires
        forall|i: int| 0 <= i < s.len() ==> shell::is_plain(#[trigger] s[i]),
    ensures
        split_from(s, Some(word), false) == Some(seq![word + s]),
    decreases s.len(),
{
    if s.len() == 0 {
        assert(word + s =~= word);
    } else {
        assert(shell::is_plain(s[0]));
        let rest = s.skip(1);
        assert forall|i: int| 0 <= i < rest.len() implies shell::is_plain(#[trigger] rest[i]) by {
            assert(rest[i] == s[i + 1]);
        }
        lemma_plain_is_a_word(rest, word.push(s[0]));
        assert(word.push(s[0]) + rest =~= word + s);
    }
}

proof fn lemma_quoted_is_read(s: Seq<char>, tail: Seq<char>, word: Seq<char>)
    ensures
        split_from(shell::quoted(s) + tail, Some(word), true) == split_from(
            tail,
            Some(word + s),
            true,
        ),
    decreases s.len(),
{
    if s.len() == 0 {
        assert(shell::quoted(s) + tail =~= tail);
        assert(word + s =~= word);
    } else {
        let init = s.drop_last();
        let c = s.last();
        if c == '\'' {
            let piece = seq!['\'', '\\', '\'', '\''];
            let t = piece + tail;
            assert(shell::quoted(s) + tail =~= shell::quoted(init) + t);
            lemma_quoted_is_read(init, t, word);
            let w = word + init;
            assert(t[0] == '\'');
            let t1 = t.skip(1);
            assert(t1[0] == '\\' && t1[1] == '\'');
            let t2 = t1.skip(2);
            assert(t2[0] == '\'');
            assert(t2.skip(1) =~= tail);
            assert(split_from(t, Some(w), true) == split_from(t1, Some(w), false));
            assert(split_from(t1, Some(w), false) == split_from(t2, Some(w.push('\'')), false));
            assert(split_from(t2, Some(w.push('\'')), false) == split_from(
                tail,
                Some(w.push('\'')),
                true,
            ));
            assert(w.push('\'') =~= word + s);
        } else {
            let t = seq![c] + tail;
            assert(shell::quoted(s) + tail =~= shell::quoted(init) + t);
            lemma_quoted_is_read(init, t, word);
            assert(t.skip(1) =~= tail);
            assert((word + init).push(c) =~= word + s);
        }
    }
}

/// A shell reads an escaped argument as that one word, whatever the argument holds.
pub proof fn lemma_escaped_is_one_word(arg: &str, r: String)
    requires
        call_ensures(shell::shell_escape, (arg,), r),
    ensures
        split_line(r@) == Some(seq![arg@]),
{
    lemma_escaped_word(arg@);
}

proof fn lemma_escaped_word(s: Seq<char>)
    ensures
        split_line(shell::escaped(s)) == Some(seq![s]),
{
    let e = shell::escaped(s);
    if s.len() == 0 {
        assert(e[0] == '\'');
        assert(e.skip(1)[0] == '\'');
        assert(e.skip(1).skip(1) =~= Seq::<char>::empty());
        let none = Seq::<char>::empty();
        assert(split_from(none, Some(none), false) == Some(seq![none]));
        assert(split_from(e.skip(1), Some(none), true) == Some(seq![none]));
        assert(s =~= none);
    } else if forall|i: int| 0 <= i < s.len() ==> shell::is_plain(#[trigger] s[i]) {
        assert(shell::is_plain(s[0]));
        let rest = s.skip(1);
        assert forall|i: int| 0 <= i < rest.len() implies shell::is_plain(#[trigger] rest[i]) by {
            assert(rest[i] == s[i + 1]);
        }
        lemma_plain_is_a_word(rest, seq![s[0]]);
        assert(seq![s[0]] + rest =~= s);
    } else {
        let tail = seq!['\''];
        let none = Seq::<char>::empty();
        assert(e[0] == '\'');
        assert(e.skip(1) =~= shell::quoted(s) + tail);
        lemma_quoted_is_read(s, tail, none);
        assert(tail.skip(1) =~= none);
        assert(none + s =~= s);
        assert(split_from(none, Some(s), false) == Some(seq![s]));
        assert(split_from(tail, Some(s), true) == Some(seq![s]));
    }
}

/// Escaped arguments with spaces between them are read as these arguments.
pub proof fn lemma_joined_words(args: Seq<Seq<char>>)
    ensures
        split_line(text::joined(shell::escaped_all(args), " "@)) == Some(args),
    decreases args.len(),
{
    reveal_strlit(" ");
    assert(" "@ =~= seq![' ']);
    let parts = shell::escaped_all(args);
    let line = text::joined(parts, " "@);
    if args.len() == 0 {
        assert(args =~= Seq::<Seq<char>>::empty());
    } else if args.len() == 1 {
        lemma_escaped_word(args[0]);
        assert(parts[0] == shell::escaped(args[0]));
        assert(args =~= seq![args[0]]);
    } else {
        let init = args.drop_last();
        lemma_joined_words(init);
        lemma_escaped_word(args.last());
        assert(parts.drop_last() =~= shell::escaped_all(init));
        assert(parts.last() == shell::escaped(args.last()));
        lemma_split_behind(
            text::joined(parts.drop_last(), " "@),
            parts.last(),
            None,
            false,
            init,
            seq![args.last()],
        );
        assert(line =~= text::joined(parts.drop_last(), " "@) + seq![' '] + parts.last());
        assert(init + seq![args.last()] =~= args);
    }
}

/// A command without a place for extra arguments gets them behind it: a shell reads the
/// words of the command and then exactly the arguments.
pub proof fn lemma_arguments_behind(
    command: Seq<char>,
    args: Seq<Seq<char>>,
    words: Seq<Seq<char>>,
)
    requires
        split_line(command) == Some(words),
        !text::contains(command, "$@"@),
    ensures
        split_line(shell::command_with(command, args)) == Some(words + args),
{
    reveal_strlit(" ");
    assert(" "@ =~= seq![' ']);
    if args.len() == 0 {
        assert(words + args =~= words);
    } else {
        lemma_joined_words(args);
        let rest = text::joined(shell::escaped_all(args), " "@);
        lemma_split_behind(command, rest, None, false, words, args);
        assert(command + " "@ + rest =~= command + seq![' '] + rest);
    }
}

/// The same of the function that puts them in.
pub proof fn lemma_command_gets_its_arguments(
    command: &str,
    args: Vec<String>,
    r: String,
    words: Seq<Seq<char>>,
)
    requires
        call_ensures(shell::build_command_with_args, (command, &args), r),
        split_line(command@) == Some(words),
        !text::contains(command@, "$@"@),
    ensures
        split_line(r@) == Some(words + text::texts(args@)),
        args@.len() == 0 ==> r@ == command@,
{
    lemma_arguments_behind(command@, text::texts(args@), words);
    assert(text::texts(args@).len() == args@.len());
}

proof fn lemma_replaced_before(a: Seq<char>, b: Seq<char>, with: Seq<char>)
    requires
        forall|i: int| 0 <= i < a.len() - 1 ==> !(#[trigger] a[i] == '$' && a[i + 1] == '@'),
        a.len() > 0 && b.len() > 0 ==> !(a.last() == '$' && b[0] == '@'),
    ensures
        shell::replaced(a + b, with) == a + shell::replaced(b, with),
    decreases a.len(),
{
    let s = a + b;
    if a.len() == 0 {
        assert(s =~= b);
        assert(a + shell::replaced(b, with) =~= shell::replaced(b, with));
    } else {
        let rest = a.skip(1);
        assert forall|i: int| 0 <= i < rest.len() - 1 implies !(#[trigger] rest[i] == '$'
            && rest[i + 1] == '@') by {
            assert(rest[i] == a[i + 1]);
            assert(rest[i + 1] == a[i + 2]);
        }
        if rest.len() > 0 {
            assert(rest.last() == a.last());
        }
        lemma_replaced_before(rest, b, with);
        assert(s[0] == a[0]);
        if a.len() > 1 {
            assert(s[1] == a[1]);
        } else if b.len() > 0 {
            assert(s[1] == b[0]);
        }
        assert(s.skip(1) =~= rest + b);
        assert(seq![a[0]] + (rest + shell::replaced(b, with)) =~= a + shell::replaced(b, with));
    }
}

/// A command with a place for extra arguments gets them there, and all else stays as it
/// is.
pub proof fn lemma_arguments_in_place(
    command: &str,
    args: Vec<String>,
    r: String,
    before: Seq<char>,
    behind: Seq<char>,
)
    requires
        call_ensures(shell::build_command_with_args, (command, &args), r),
        command@ == before + "$@"@ + behind,
        forall|i: int|
            0 <= i < before.len() - 1 ==> !(#[trigger] before[i] == '$' && before[i + 1] == '@'),
        forall|i: int|
            0 <= i < behind.len() - 1 ==> !(#[trigger] behind[i] == '$' && behind[i + 1] == '@'),
        args@.len() > 0,
    ensures
        r@.len() >= before.len() + behind.len(),
        r@.take(before.len() as int) == before,
        r@.skip(r@.len() - behind.len()) == behind,
        split_line(r@.subrange(before.len() as int, r@.len() - behind.len())) == Some(
            text::texts(args@),
        ),
{
    reveal_strlit("$@");
    let mark = "$@"@;
    assert(mark.len() == 2 && mark[0] == '$' && mark[1] == '@');
    let all = text::texts(args@);
    assert(all.len() == args@.len());
    let joined = text::joined(shell::escaped_all(all), " "@);
    let tail = mark + behind;
    assert(command@ =~= before + tail);
    assert(command@.subrange(before.len() as int, before.len() as int + 2) =~= mark);
    assert(text::occurs_at(command@, mark, before.len() as int));
    lemma_replaced_before(before, tail, joined);
    assert(tail[0] == '$' && tail[1] == '@');
    assert(tail.skip(2) =~= behind);
    assert(shell::replaced(tail, joined) == joined + shell::replaced(behind, joined));
    let none = Seq::<char>::empty();
    lemma_replaced_before(behind, none, joined);
    assert(behind + none =~= behind);
    assert(shell::replaced(none, joined) =~= none);
    assert(behind + shell::replaced(none, joined) =~= behind);
    assert(r@ =~= before + (joined + behind));
    assert(r@.take(before.len() as int) =~= before);
    assert(r@.skip(r@.len() - behind.len()) =~= behind);
    assert(r@.subrange(before.len() as int, r@.len() - behind.len()) =~= joined);
    lemma_joined_words(all);
}

/// Whether a text has no two spaces in a row and no white space at its ends.
pub open spec fn single_spaced(s: Seq<char>) -> bool {
    &&& s.len() > 0
    &&& !text::is_space(s[0])
    &&& !text::is_space(s.last())
    &&& forall|i: int| 0 <= i < s.len() - 1 ==> !(#[trigger] s[i] == ' ' && s[i + 1] == ' ')
}

/// Whether a text has no place for extra arguments.
pub open spec fn no_place(s: Seq<char>) -> bool {
    forall|i: int| 0 <= i < s.len() - 1 ==> !(#[trigger] s[i] == '$' && s[i + 1] == '@')
}

proof fn lemma_collapsed(s: Seq<char>, tail: Seq<char>, after: bool)
    requires
        forall|i: int| 0 <= i < s.len() - 1 ==> !(#[trigger] s[i] == ' ' && s[i + 1] == ' '),
        s.len() > 0,
        after ==> s[0] != ' ',
    ensures
        shell::collapsed(s + tail, after) == s + shell::collapsed(tail, s.last() == ' '),
    decreases s.len(),
{
    let t = s + tail;
    assert(t[0] == s[0]);
    let rest = s.skip(1);
    assert(t.skip(1) =~= rest + tail);
    if rest.len() > 0 {
        assert forall|i: int| 0 <= i < rest.len() - 1 implies !(#[trigger] rest[i] == ' '
            && rest[i + 1] == ' ') by {
            assert(rest[i] == s[i + 1] && rest[i + 1] == s[i + 2]);
        }
        assert(rest[0] == s[1]);
        lemma_collapsed(rest, tail, s[0] == ' ');
        let c = shell::collapsed(tail, s.last() == ' ');
        assert(seq![s[0]] + (rest + c) =~= s + c);
    } else {
        assert(rest + tail =~= tail);
        let c = shell::collapsed(tail, s.last() == ' ');
        assert(seq![s[0]] + c =~= s + c);
    }
}

proof fn lemma_place_is_left_out(before: Seq<char>, behind: Seq<char>)
    requires
        no_place(before),
        no_place(behind),
    ensures
        shell::replaced(before + "$@"@ + behind, Seq::empty()) == before + behind,
        text::contains(before + "$@"@ + behind, "$@"@),
{
    reveal_strlit("$@");
    let mark = "$@"@;
    let none = Seq::<char>::empty();
    let tail = mark + behind;
    let all = before + mark + behind;
    assert(all =~= before + tail);
    assert(all.subrange(before.len() as int, before.len() as int + 2) =~= mark);
    assert(text::occurs_at(all, mark, before.len() as int));
    lemma_replaced_before(before, tail, none);
    assert(tail[0] == '$' && tail[1] == '@');
    assert(tail.skip(2) =~= behind);
    lemma_replaced_before(behind, none, none);
    assert(behind + none =~= behind);
    assert(shell::replaced(none, none) =~= none);
    assert(behind + shell::replaced(none, none) =~= behind);
    assert(none + behind =~= behind);
}

/// Without extra arguments their place is left out, and so are the spaces round it.
pub proof fn lemma_no_arguments_in_place(
    command: &str,
    args: Vec<String>,
    r: String,
    before: Seq<char>,
    behind: Seq<char>,
)
    requires
        call_ensures(shell::build_command_with_args, (command, &args), r),
        args@.len() == 0,
        single_spaced(before),
        single_spaced(behind),
        no_place(before),
        no_place(behind),
    ensures
        command@ == before + seq![' '] + "$@"@ ==> r@ == before,
        command@ == before + seq![' '] + "$@"@ + (seq![' '] + behind) ==> r@ == before + seq![' ']
            + behind,
        !text::contains(command@, "$@"@) ==> r@ == command@,
{
    let none = Seq::<char>::empty();
    assert(text::texts(args@).len() == 0);
    let head = before + seq![' '];
    assert(no_place(head)) by {
        assert forall|i: int| 0 <= i < head.len() - 1 implies !(#[trigger] head[i] == '$' && head[i
            + 1] == '@') by {
            if i + 1 < before.len() {
                assert(head[i] == before[i] && head[i + 1] == before[i + 1]);
            }
        }
    }
    assert forall|i: int| 0 <= i < head.len() - 1 implies !(#[trigger] head[i] == ' ' && head[i + 1]
        == ' ') by {
        if i + 1 < before.len() {
            assert(head[i] == before[i] && head[i + 1] == before[i + 1]);
        } else {
            assert(head[i] == before.last());
        }
    }
    if command@ == before + seq![' '] + "$@"@ {
        lemma_place_is_left_out(head, none);
        assert(head + "$@"@ + none =~= command@);
        assert(head + none =~= head);
        lemma_collapsed(head, none, false);
        assert(shell::collapsed(none, true) =~= none);
        assert(shell::collapsed(head, false) =~= head);
        assert(head[0] == before[0]);
        assert(text::trim_start(head) == head);
        assert(head.last() == ' ');
        assert(head.drop_last() =~= before);
        assert(text::trim_end(before) == before);
    }
    if command@ == before + seq![' '] + "$@"@ + (seq![' '] + behind) {
        let tail = seq![' '] + behind;
        assert(no_place(tail)) by {
            assert forall|i: int| 0 <= i < tail.len() - 1 implies !(#[trigger] tail[i] == '$'
                && tail[i + 1] == '@') by {
                if i > 0 {
                    assert(tail[i] == behind[i - 1] && tail[i + 1] == behind[i]);
                }
            }
        }
        lemma_place_is_left_out(head, tail);
        lemma_collapsed(head, tail, false);
        assert(tail[0] == ' ' && tail.skip(1) =~= behind);
        assert(shell::collapsed(tail, true) == shell::collapsed(behind, true));
        lemma_collapsed(behind, none, true);
        assert(behind + none =~= behind);
        assert(shell::collapsed(none, behind.last() == ' ') =~= none);
        let out = head + behind;
        assert(shell::collapsed(head + tail, false) =~= out);
        assert(out[0] == before[0]);
        assert(text::trim_start(out) == out);
        assert(out.last() == behind.last());
        assert(text::trim_end(out) == out);
    }
}

// ---------------------------------------------------------------------------
// References
// ---------------------------------------------------------------------------

proof fn lemma_quoted_has_no_reference(s: Seq<char>)
    requires
        no_reference(s),
    ensures
        no_reference(shell::quoted(s)),
        shell::quoted(s).len() > 0 && shell::quoted(s).last() == '$' ==> s.len() > 0 && s.last()
            == '$',
    decreases s.len(),
{
    if s.len() > 0 {
        let init = s.drop_last();
        assert(no_reference(init)) by {
            assert forall|i: int| 0 <= i < init.len() - 1 implies !(#[trigger] init[i] == '$'
                && init[i + 1] == '{') by {
                assert(init[i] == s[i] && init[i + 1] == s[i + 1]);
            }
        }
        lemma_quoted_has_no_reference(init);
        let q = shell::quoted(init);
        let r = shell::quoted(s);
        assert forall|i: int| 0 <= i < r.len() - 1 implies !(#[trigger] r[i] == '$' && r[i + 1]
            == '{') by {
            if i + 1 < q.len() {
                assert(r[i] == q[i] && r[i + 1] == q[i + 1]);
            } else if i + 1 == q.len() && s.last() != '\'' {
                assert(r[i] == q.last());
                assert(r[i + 1] == s.last());
                if r[i] == '$' {
                    assert(init.last() == '$');
                    assert(s[s.len() - 2] == '$');
                }
            }
        }
    }
}

/// Escaping an argument adds no reference to a variable.
pub proof fn lemma_escaped_has_no_reference(s: Seq<char>)
    requires
        no_reference(s),
    ensures
        no_reference(shell::escaped(s)),
{
    lemma_quoted_has_no_reference(s);
    let q = shell::quoted(s);
    let e = seq!['\''] + q + seq!['\''];
    assert forall|i: int| 0 <= i < e.len() - 1 implies !(#[trigger] e[i] == '$' && e[i + 1]
        == '{') by {
        if 1 <= i && i + 1 < e.len() - 1 {
            assert(e[i] == q[i - 1] && e[i + 1] == q[i]);
        }
    }
}

proof fn lemma_no_reference_beside(a: Seq<char>, b: Seq<char>)
    requires
        no_reference(a),
        no_reference(b),
    ensures
        no_reference(a + seq![' '] + b),
{
    let s = a + seq![' '] + b;
    assert forall|i: int| 0 <= i < s.len() - 1 implies !(#[trigger] s[i] == '$' && s[i + 1]
        == '{') by {
        if i + 1 < a.len() {
            assert(s[i] == a[i] && s[i + 1] == a[i + 1]);
        } else if i > a.len() {
            assert(s[i] == b[i - a.len() - 1] && s[i + 1] == b[i - a.len()]);
        }
    }
}

/// A command line that no part of refers to a variable does not either.
pub proof fn lemma_line_has_no_reference(command: Seq<char>, args: Seq<Seq<char>>)
    requires
        no_reference(command),
        !text::contains(command, "$@"@),
        forall|i: int| 0 <= i < args.len() ==> no_reference(#[trigger] args[i]),
    ensures
        no_reference(shell::command_with(command, args)),
{
    reveal_strlit(" ");
    assert(" "@ =~= seq![' ']);
    if args.len() > 0 {
        lemma_joined_has_no_reference(args);
        let rest = text::joined(shell::escaped_all(args), " "@);
        lemma_no_reference_beside(command, rest);
        assert(command + " "@ + rest =~= command + seq![' '] + rest);
    }
}

proof fn lemma_joined_has_no_reference(args: Seq<Seq<char>>)
    requires
        forall|i: int| 0 <= i < args.len() ==> no_reference(#[trigger] args[i]),
    ensures
        no_reference(text::joined(shell::escaped_all(args), " "@)),
    decreases args.len(),
{
    reveal_strlit(" ");
    assert(" "@ =~= seq![' ']);
    let parts = shell::escaped_all(args);
    if args.len() == 1 {
        lemma_escaped_has_no_reference(args[0]);
        assert(parts[0] == shell::escaped(args[0]));
    } else if args.len() > 1 {
        let init = args.drop_last();
        assert forall|i: int| 0 <= i < init.len() implies no_reference(#[trigger] init[i]) by {
            assert(init[i] == args[i]);
        }
        lemma_joined_has_no_reference(init);
        assert(no_reference(args[args.len() - 1]));
        lemma_escaped_has_no_reference(args.last());
        assert(parts.drop_last() =~= shell::escaped_all(init));
        assert(parts.last() == shell::escaped(args.last()));
        let before = text::joined(parts.drop_last(), " "@);
        lemma_no_reference_beside(before, parts.last());
        assert(before + " "@ + parts.last() =~= before + seq![' '] + parts.last());
    }
}

proof fn lemma_closing_first(s: Seq<char>, depth: nat, n: int)
    requires
        0 <= n < s.len(),
        s[n] == '}',
        depth == 1,
        forall|i: int| 0 <= i < n ==> #[trigger] s[i] != '}' && s[i] != '{',
    ensures
        shell::closing(s, depth) == n,
    decreases n,
{
    if n > 0 {
        assert(s[0] != '}' && s[0] != '{');
        let rest = s.skip(1);
        assert forall|i: int| 0 <= i < n - 1 implies #[trigger] rest[i] != '}' && rest[i]
            != '{' by {
            assert(rest[i] == s[i + 1]);
        }
        assert(rest[n - 1] == s[n]);
        lemma_closing_first(rest, depth, n - 1);
    }
}

/// A reference to a variable is replaced by its value, and by nothing where it is not set;
/// what stands before it stays as it is, and what stands behind it is treated the same way.
pub proof fn lemma_reference_gets_its_value(
    template: &str,
    rest: &str,
    env: NameMap<String>,
    r: String,
    s: String,
    before: Seq<char>,
    name: Seq<char>,
)
    requires
        call_ensures(shell::interpolate, (template, &env), r),
        call_ensures(shell::interpolate, (rest, &env), s),
        template@ == before + "${"@ + name + "}"@ + rest@,
        no_reference(before),
        before.len() > 0 ==> before.last() != '$',
        forall|i: int| 0 <= i < name.len() ==> #[trigger] name[i] != '{' && name[i] != '}',
        !text::contains(name, ":-"@),
    ensures
        env@.dom().contains(name) ==> r@ == before + env@[name]@ + s@,
        !env@.dom().contains(name) ==> r@ == before + s@,
{
    reveal_strlit("${");
    reveal_strlit("}");
    let vars = psyfile::env_view(env);
    let tail = "${"@ + name + "}"@ + rest@;
    assert(template@ =~= before + tail);
    shell::lemma_interpolate_after(before, tail, vars);
    reveal(shell::value_of);
    lemma_braces_value(tail, name, rest@, vars);
    if env@.dom().contains(name) {
        assert(vars[name] == env@[name]@);
        assert(before + (env@[name]@ + s@) =~= before + env@[name]@ + s@);
    } else {
        assert(Seq::<char>::empty() + s@ =~= s@);
    }
}

proof fn lemma_braces_value(
    tail: Seq<char>,
    name: Seq<char>,
    rest: Seq<char>,
    vars: Map<Seq<char>, Seq<char>>,
)
    requires
        tail == "${"@ + name + "}"@ + rest,
        forall|i: int| 0 <= i < name.len() ==> #[trigger] name[i] != '{' && name[i] != '}',
    ensures
        shell::interpolated(tail, vars) == shell::value_of(name, vars) + shell::interpolated(
            rest,
            vars,
        ),
{
    reveal_strlit("${");
    reveal_strlit("}");
    reveal_with_fuel(shell::interpolated, 2);
    assert(tail[0] == '$' && tail[1] == '{');
    let body = tail.skip(2);
    assert(body =~= name + "}"@ + rest);
    assert(body[name.len() as int] == '}');
    assert forall|i: int| 0 <= i < name.len() implies #[trigger] body[i] != '}' && body[i]
        != '{' by {
        assert(body[i] == name[i]);
    }
    lemma_closing_first(body, 1, name.len() as int);
    assert(body.take(name.len() as int) =~= name);
    assert(body.skip(name.len() as int + 1) =~= rest);
}

/// A reference with a default stands for the default where the variable is not set or
/// empty, and for its value otherwise.
pub proof fn lemma_default_of_a_reference(
    template: &str,
    rest: &str,
    env: NameMap<String>,
    r: String,
    s: String,
    before: Seq<char>,
    name: Seq<char>,
    default: Seq<char>,
)
    requires
        call_ensures(shell::interpolate, (template, &env), r),
        call_ensures(shell::interpolate, (rest, &env), s),
        template@ == before + "${"@ + (name + ":-"@ + default) + "}"@ + rest@,
        no_reference(before),
        before.len() > 0 ==> before.last() != '$',
        forall|i: int|
            0 <= i < name.len() ==> #[trigger] name[i] != '{' && name[i] != '}' && name[i] != ':',
        forall|i: int|
            0 <= i < default.len() ==> #[trigger] default[i] != '{' && default[i] != '}',
    ensures
        env@.dom().contains(name) && env@[name]@.len() > 0 ==> r@ == before + env@[name]@ + s@,
        !(env@.dom().contains(name) && env@[name]@.len() > 0) ==> r@ == before + default + s@,
{
    reveal_strlit("${");
    reveal_strlit("}");
    reveal_strlit(":-");
    let vars = psyfile::env_view(env);
    let inner = name + ":-"@ + default;
    let tail = "${"@ + inner + "}"@ + rest@;
    assert(template@ =~= before + tail);
    shell::lemma_interpolate_after(before, tail, vars);
    assert forall|i: int| 0 <= i < inner.len() implies #[trigger] inner[i] != '{' && inner[i]
        != '}' by {
        if i < name.len() {
            assert(inner[i] == name[i]);
        } else if i >= name.len() + 2 {
            assert(inner[i] == default[i - name.len() - 2]);
        }
    }
    lemma_braces_value(tail, inner, rest@, vars);
    reveal(shell::value_of);
    let n = name.len() as int;
    assert(inner.subrange(n, n + 2) =~= ":-"@);
    assert(text::occurs_at(inner, ":-"@, n));
    assert forall|j: int| 0 <= j < n implies !text::occurs_at(inner, ":-"@, j) by {
        if text::occurs_at(inner, ":-"@, j) {
            assert(inner.subrange(j, j + 2)[0] == inner[j]);
            assert(inner[j] == name[j]);
            assert(":-"@[0] == ':');
        }
    }
    let f = shell::first_of(inner, ":-"@);
    assert(text::occurs_at(inner, ":-"@, f) && forall|j: int|
        0 <= j < f ==> !text::occurs_at(inner, ":-"@, j));
    assert(f == n);
    assert(inner.take(n) =~= name);
    assert(inner.skip(n + 2) =~= default);
    if env@.dom().contains(name) && env@[name]@.len() > 0 {
        assert(vars[name] == env@[name]@);
        assert(before + (env@[name]@ + s@) =~= before + env@[name]@ + s@);
    } else {
        if env@.dom().contains(name) {
            assert(vars[name] == env@[name]@);
        }
        assert(before + (default + s@) =~= before + default + s@);
    }
}

/// A text that refers to no variable stays as it is.
pub proof fn lemma_plain_text_stays(template: &str, env: NameMap<String>, r: String)
    requires
        call_ensures(shell::interpolate, (template, &env), r),
        no_reference(template@),
    ensures
        r@ == template@,
{
    shell::lemma_interpolate_plain(template@, psyfile::env_view(env));
}

/// A reference alone stands for the value of its variable, and for nothing where that is not
/// set.
pub proof fn lemma_single_reference(name: Seq<char>, vars: Map<Seq<char>, Seq<char>>)
    requires
        forall|i: int| 0 <= i < name.len() ==> #[trigger] name[i] != '{' && name[i] != '}',
        !text::contains(name, ":-"@),
    ensures
        vars.dom().contains(name) ==> shell::interpolated("${"@ + name + "}"@, vars)
            == vars[name],
        !vars.dom().contains(name) ==> shell::interpolated("${"@ + name + "}"@, vars).len() == 0,
{
    reveal_strlit("${");
    reveal_strlit("}");
    let none = Seq::<char>::empty();
    let tail = "${"@ + name + "}"@;
    assert(tail =~= "${"@ + name + "}"@ + none);
    reveal(shell::value_of);
    reveal(shell::interpolated);
    lemma_braces_value(tail, name, none, vars);
    assert(shell::interpolated(none, vars).len() == 0);
}

/// Arguments are written one behind the other, each as a word of its own, with a space
/// between them.
pub proof fn lemma_written_arguments(
    args: Vec<String>,
    r: String,
    before: Vec<String>,
    q: String,
    arg: &str,
    word: String,
)
    requires
        call_ensures(shell::shell_join, (&args,), r),
        call_ensures(shell::shell_join, (&before,), q),
        args@ == before@.push(args@.last()),
        args@.len() > 0,
        arg@ == args@.last()@,
        call_ensures(shell::shell_escape, (arg,), word),
    ensures
        r@ == if before@.len() == 0 {
            word@
        } else {
            q@.push(' ') + word@
        },
        before@.len() == 0 ==> q@.len() == 0,
{
    reveal_strlit(" ");
    let a = shell::escaped_all(text::texts(args@));
    let b = shell::escaped_all(text::texts(before@));
    assert(a.len() == args@.len());
    assert(a.last() == shell::escaped(arg@));
    assert forall|i: int| 0 <= i < b.len() implies a[i] == b[i] by {
        assert(args@[i] == before@[i]);
    }
    assert(a.drop_last() =~= b);
    assert(q@ + " "@ =~= q@.push(' '));
}

} // verus!
