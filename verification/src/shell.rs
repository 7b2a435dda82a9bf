//! Command lines: variables, quoting and extra arguments.
use crate::names::NameMap;
use crate::platform::System;
use crate::process;
use crate::psyfile;
use crate::text;
use vstd::prelude::*;

verus! {

// ---------------------------------------------------------------------------
// Variables
// ---------------------------------------------------------------------------

/// Where the brace closes that was opened before `s`, with `depth` braces open;
/// the length of `s` where it never does.
pub open spec fn closing(s: Seq<char>, depth: nat) -> nat
    decreases s.len(),
{
    if s.len() == 0 {
        0
    } else if s[0] == '}' && depth <= 1 {
        0
    } else {
        let d = if s[0] == '{' {
            depth + 1
        } else if s[0] == '}' {
            (depth - 1) as nat
        } else {
            depth
        };
        1 + closing(s.skip(1), d)
    }
}

/// What the text between the braces of `${...}` stands for: a variable, or a
/// variable with a default for when it is unset or empty.
#[verifier::opaque]
pub open spec fn value_of(expr: Seq<char>, env: Map<Seq<char>, Seq<char>>) -> Seq<char> {
    if exists|i: int| text::occurs_at(expr, ":-"@, i) {
        let i = first_of(expr, ":-"@);
        let name = expr.take(i);
        if env.dom().contains(name) && env[name].len() > 0 {
            env[name]
        } else {
            expr.skip(i + 2)
        }
    } else if env.dom().contains(expr) {
        env[expr]
    } else {
        Seq::empty()
    }
}

/// The first position at which `pat` stands in `s`, where it does.
pub open spec fn first_of(s: Seq<char>, pat: Seq<char>) -> int {
    choose|i: int|
        text::occurs_at(s, pat, i) && forall|j: int| 0 <= j < i ==> !text::occurs_at(s, pat, j)
}

/// A template with every outermost `${...}` replaced by what it stands for.
/// What was put in is not looked at again.
#[verifier::opaque]
pub open spec fn interpolated(s: Seq<char>, env: Map<Seq<char>, Seq<char>>) -> Seq<char>
    decreases s.len(),
{
    if s.len() == 0 {
        Seq::empty()
    } else if s.len() >= 2 && s[0] == '$' && s[1] == '{' {
        let body = s.skip(2);
        let end = closing(body, 1);
        if end >= body.len() {
            value_of(body, env)
        } else {
            value_of(body.take(end as int), env) + interpolated(body.skip(end as int + 1), env)
        }
    } else {
        seq![s[0]] + interpolated(s.skip(1), env)
    }
}

fn find_closing(s: &Vec<char>, from: usize) -> (r: usize)
    requires
        from <= s.len(),
    ensures
        from <= r <= s.len(),
        r - from == closing(s@.skip(from as int), 1),
{
    let mut depth: u128 = 1;
    let mut i: usize = from;
    while i < s.len()
        invariant
            from <= i <= s.len(),
            1 <= depth <= 1 + (i - from),
            i - from + closing(s@.skip(i as int), depth as nat) == closing(
                s@.skip(from as int),
                1,
            ),
        decreases s.len() - i,
    {
        proof {
            assert(s@.skip(i as int)[0] == s@[i as int]);
            assert(s@.skip(i as int).skip(1) =~= s@.skip(i + 1));
        }
        if s[i] == '}' {
            if depth == 1 {
                return i;
            }
            depth -= 1;
        } else if s[i] == '{' {
            depth += 1;
        }
        i += 1;
    }
    i
}

fn expand(expr: &Vec<char>, env: &NameMap<String>) -> (r: String)
    ensures
        r@ == value_of(expr@, psyfile::env_view(*env)),
{
    let mark = text::chars_of(":-");
    proof {
        reveal(value_of);
        reveal_strlit(":-");
        assert(mark@.len() == 2);
    }
    let n = expr.len();
    match text::find(expr, &mark) {
        Some(i) => {
            proof {
                assert(text::occurs_at(expr@, mark@, i as int));
            }
            let name = text::string_of(&text::part(expr, 0, i));
            let default = text::string_of(&text::part(expr, i + 2, n));
            proof {
                let f = first_of(expr@, ":-"@);
                if f < i {
                    assert(!text::occurs_at(expr@, ":-"@, f));
                }
                assert(f == i);
                assert(name@ =~= expr@.take(i as int));
                assert(default@ =~= expr@.skip(i + 2));
            }
            match env.get(name.as_str()) {
                Some(v) => {
                    if v.as_str().is_empty() {
                        default
                    } else {
                        text::copy(v.as_str())
                    }
                },
                None => default,
            }
        },
        None => {
            let name = text::string_of(expr);
            match env.get(name.as_str()) {
                Some(v) => text::copy(v.as_str()),
                None => String::new(),
            }
        },
    }
}

/// What a `${...}` that begins at a position contributes.
proof fn lemma_braces(s: Seq<char>, env: Map<Seq<char>, Seq<char>>, i: int, end: int)
    requires
        0 <= i,
        i + 1 < s.len(),
        s[i] == '$',
        s[i + 1] == '{',
        i + 2 <= end <= s.len(),
        end - (i + 2) == closing(s.skip(i + 2), 1),
    ensures
        interpolated(s.skip(i), env) == value_of(s.subrange(i + 2, end), env) + interpolated(
            s.skip(
                if end < s.len() {
                    end + 1
                } else {
                    end
                },
            ),
            env,
        ),
{
    reveal_with_fuel(interpolated, 2);
    let rest = s.skip(i);
    let body = rest.skip(2);
    assert(body =~= s.skip(i + 2));
    if end < s.len() {
        assert(s.subrange(i + 2, end) =~= body.take(end - (i + 2)));
        assert(body.skip(end - (i + 2) + 1) =~= s.skip(end + 1));
    } else {
        assert(s.subrange(i + 2, end) =~= body);
        assert(s.skip(end) =~= Seq::<char>::empty());
        assert(value_of(body, env) + Seq::<char>::empty() =~= value_of(body, env));
    }
}

/// What any other character at a position contributes.
proof fn lemma_character(s: Seq<char>, env: Map<Seq<char>, Seq<char>>, i: int)
    requires
        0 <= i < s.len(),
        !(i + 1 < s.len() && s[i] == '$' && s[i + 1] == '{'),
    ensures
        interpolated(s.skip(i), env) == seq![s[i]] + interpolated(s.skip(i + 1), env),
{
    reveal_with_fuel(interpolated, 2);
    let rest = s.skip(i);
    assert(rest.skip(1) =~= s.skip(i + 1));
    if rest.len() >= 2 {
        assert(rest[1] == s[i + 1]);
    }
}

/// Puts the values of variables into a template: `${VAR}` and
/// `${VAR:-default}`.
pub fn interpolate(template: &str, env: &NameMap<String>) -> (r: String)
    ensures
        r@ == interpolated(template@, psyfile::env_view(*env)),
{
    let s = text::chars_of(template);
    let ghost vars = psyfile::env_view(*env);
    let mut out = String::new();
    let mut i: usize = 0;
    proof {
        assert(s@.skip(0) =~= s@);
        assert(out@ + interpolated(s@, vars) =~= interpolated(s@, vars));
    }
    while i < s.len()
        invariant
            i <= s.len(),
            vars == psyfile::env_view(*env),
            out@ + interpolated(s@.skip(i as int), vars) == interpolated(s@, vars),
        decreases s.len() - i,
    {
        let ghost before = out@;
        if s[i] == '$' && i + 1 < s.len() && s[i + 1] == '{' {
            let end = find_closing(&s, i + 2);
            let expr = text::part(&s, i + 2, end);
            let value = expand(&expr, env);
            text::push_text(&mut out, value.as_str());
            let next: usize = if end < s.len() {
                end + 1
            } else {
                end
            };
            proof {
                lemma_braces(s@, vars, i as int, end as int);
                let more = interpolated(s@.skip(next as int), vars);
                assert((before + value@) + more =~= before + (value@ + more));
            }
            i = next;
        } else {
            out.push(s[i]);
            proof {
                lemma_character(s@, vars, i as int);
                let more = interpolated(s@.skip(i + 1), vars);
                assert(before.push(s@[i as int]) + more =~= before + (seq![s@[i as int]] + more));
            }
            i += 1;
        }
    }
    proof {
        reveal(interpolated);
        assert(s@.skip(s@.len() as int) =~= Seq::<char>::empty());
        assert(out@ + Seq::<char>::empty() =~= out@);
    }
    out
}

/// What stands in front of the first `${` of a template stays as it is.
pub proof fn lemma_interpolate_after(
    a: Seq<char>,
    b: Seq<char>,
    env: Map<Seq<char>, Seq<char>>,
)
    requires
        forall|i: int| 0 <= i < a.len() - 1 ==> !(#[trigger] a[i] == '$' && a[i + 1] == '{'),
        a.len() > 0 ==> a.last() != '$',
    ensures
        interpolated(a + b, env) == a + interpolated(b, env),
    decreases a.len(),
{
    if a.len() == 0 {
        assert(a + b =~= b);
        assert(a + interpolated(b, env) =~= interpolated(b, env));
    } else {
        let s = a + b;
        let rest = a.skip(1);
        assert forall|i: int| 0 <= i < rest.len() - 1 implies !(#[trigger] rest[i] == '$'
            && rest[i + 1] == '{') by {
            assert(rest[i] == a[i + 1]);
            assert(rest[i + 1] == a[i + 2]);
        }
        lemma_interpolate_after(rest, b, env);
        assert(s[0] == a[0]);
        if a.len() > 1 {
            assert(s[1] == a[1]);
        }
        lemma_character(s, env, 0);
        assert(s.skip(0) =~= s);
        assert(s.skip(1) =~= rest + b);
        assert(seq![a[0]] + (rest + interpolated(b, env)) =~= a + interpolated(b, env));
    }
}

/// A template without `${` stays as it is.
pub proof fn lemma_interpolate_plain(s: Seq<char>, env: Map<Seq<char>, Seq<char>>)
    requires
        forall|i: int| 0 <= i < s.len() - 1 ==> !(#[trigger] s[i] == '$' && s[i + 1] == '{'),
    ensures
        interpolated(s, env) == s,
    decreases s.len(),
{
    reveal_with_fuel(interpolated, 2);
    if s.len() > 0 {
        let rest = s.skip(1);
        assert forall|i: int| 0 <= i < rest.len() - 1 implies !(#[trigger] rest[i] == '$'
            && rest[i + 1] == '{') by {
            assert(rest[i] == s[i + 1]);
            assert(rest[i + 1] == s[i + 2]);
        }
        lemma_interpolate_plain(rest, env);
        assert(seq![s[0]] + rest =~= s);
    }
}

// ---------------------------------------------------------------------------
// Quoting
// ---------------------------------------------------------------------------

/// A character that a shell takes as it is.
pub open spec fn is_plain(c: char) -> bool {
    process::is_alphanumeric(c) || c == '-' || c == '_' || c == '.' || c == '/'
}

/// A text with every single quote replaced by a quote that ends the quoting,
/// an escaped quote, and a quote that starts it again.
pub open spec fn quoted(s: Seq<char>) -> Seq<char>
    decreases s.len(),
{
    if s.len() == 0 {
        Seq::empty()
    } else {
        quoted(s.drop_last()) + if s.last() == '\'' {
            seq!['\'', '\\', '\'', '\'']
        } else {
            seq![s.last()]
        }
    }
}

/// An argument as one word of a shell command.
pub open spec fn escaped(s: Seq<char>) -> Seq<char> {
    if s.len() == 0 {
        seq!['\'', '\'']
    } else if forall|i: int| 0 <= i < s.len() ==> is_plain(#[trigger] s[i]) {
        s
    } else {
        seq!['\''] + quoted(s) + seq!['\'']
    }
}

/// Writes an argument as one word of a shell command.
pub fn shell_escape(arg: &str) -> (r: String)
    ensures
        r@ == escaped(arg@),
{
    let s = text::chars_of(arg);
    if s.len() == 0 {
        let mut out = String::new();
        out.push('\'');
        out.push('\'');
        proof {
            assert(out@ =~= seq!['\'', '\'']);
        }
        return out;
    }
    let mut plain = true;
    let mut i: usize = 0;
    while i < s.len()
        invariant
            i <= s.len(),
            plain == forall|j: int| 0 <= j < i ==> is_plain(#[trigger] s@[j]),
        decreases s.len() - i,
    {
        let c = s[i];
        if !(process::alphanumeric(c) || c == '-' || c == '_' || c == '.' || c == '/') {
            plain = false;
            proof {
                assert(!is_plain(s@[i as int]));
            }
        }
        i += 1;
    }
    if plain {
        return text::copy(arg);
    }
    let mut out = String::new();
    out.push('\'');
    let mut i: usize = 0;
    proof {
        assert(out@ =~= seq!['\''] + quoted(s@.take(0)));
    }
    while i < s.len()
        invariant
            i <= s.len(),
            out@ == seq!['\''] + quoted(s@.take(i as int)),
        decreases s.len() - i,
    {
        let ghost before = out@;
        proof {
            assert(s@.take(i + 1).drop_last() =~= s@.take(i as int));
            assert(s@.take(i + 1).last() == s@[i as int]);
        }
        if s[i] == '\'' {
            out.push('\'');
            out.push('\\');
            out.push('\'');
            out.push('\'');
            proof {
                assert(out@ =~= seq!['\''] + (quoted(s@.take(i as int)) + seq![
                    '\'',
                    '\\',
                    '\'',
                    '\'',
                ]));
            }
        } else {
            out.push(s[i]);
            proof {
                assert(out@ =~= seq!['\''] + (quoted(s@.take(i as int)) + seq![s@[i as int]]));
            }
        }
        i += 1;
    }
    out.push('\'');
    proof {
        assert(s@.take(s@.len() as int) =~= s@);
        assert(out@ =~= seq!['\''] + quoted(s@) + seq!['\'']);
    }
    out
}

/// How a POSIX shell reads one word: outside single quotes a backslash makes the
/// next character literal, a plain character stands for itself and a quote
/// starts quoting; inside them every character up to the next quote is literal.
/// Anything else does not occur in an escaped argument.
pub open spec fn shell_word(s: Seq<char>, inside: bool) -> Option<Seq<char>>
    decreases s.len(),
{
    if s.len() == 0 {
        if inside {
            None
        } else {
            Some(Seq::empty())
        }
    } else if inside {
        if s[0] == '\'' {
            shell_word(s.skip(1), false)
        } else {
            match shell_word(s.skip(1), true) {
                Some(w) => Some(seq![s[0]] + w),
                None => None,
            }
        }
    } else if s[0] == '\'' {
        shell_word(s.skip(1), true)
    } else if s[0] == '\\' && s.len() >= 2 {
        match shell_word(s.skip(2), false) {
            Some(w) => Some(seq![s[1]] + w),
            None => None,
        }
    } else if is_plain(s[0]) {
        match shell_word(s.skip(1), false) {
            Some(w) => Some(seq![s[0]] + w),
            None => None,
        }
    } else {
        None
    }
}

proof fn lemma_plain_word(s: Seq<char>)
    requires
        forall|i: int| 0 <= i < s.len() ==> is_plain(#[trigger] s[i]),
    ensures
        shell_word(s, false) == Some(s),
    decreases s.len(),
{
    if s.len() > 0 {
        let rest = s.skip(1);
        assert forall|i: int| 0 <= i < rest.len() implies is_plain(#[trigger] rest[i]) by {
            assert(rest[i] == s[i + 1]);
        }
        assert(is_plain(s[0]));
        lemma_plain_word(rest);
        assert(seq![s[0]] + rest =~= s);
    }
}

/// Reading on after a quoted text: what follows is read as it is inside quotes.
proof fn lemma_quoted_word(s: Seq<char>, tail: Seq<char>)
    ensures
        shell_word(quoted(s) + tail, true) == match shell_word(tail, true) {
            Some(w) => Some(s + w),
            None => None,
        },
    decreases s.len(),
{
    if s.len() == 0 {
        assert(quoted(s) + tail =~= tail);
        if shell_word(tail, true) is Some {
            assert(s + shell_word(tail, true)->0 =~= shell_word(tail, true)->0);
        }
    } else {
        let rest = s.drop_last();
        let c = s.last();
        let piece = if c == '\'' {
            seq!['\'', '\\', '\'', '\'']
        } else {
            seq![c]
        };
        let more = piece + tail;
        assert(quoted(s) + tail =~= quoted(rest) + more);
        lemma_quoted_word(rest, more);
        if c == '\'' {
            assert(more.skip(1) =~= seq!['\\', '\'', '\''] + tail);
            assert(more.skip(1).skip(2) =~= seq!['\''] + tail);
            assert(more.skip(1).skip(2).skip(1) =~= tail);
            assert(more[0] == '\'');
            assert(more.skip(1)[0] == '\\');
            assert(more.skip(1)[1] == '\'');
            assert(more.skip(1).skip(2)[0] == '\'');
            assert(shell_word(more.skip(1).skip(2), false) == shell_word(tail, true));
            assert(shell_word(more, true) == shell_word(more.skip(1), false));
        } else {
            assert(more[0] == c);
            assert(more.skip(1) =~= tail);
        }
        match shell_word(tail, true) {
            Some(w) => {
                assert(shell_word(more, true) == Some(seq![c] + w));
                assert(rest + (seq![c] + w) =~= s + w);
            },
            None => {},
        }
    }
}

/// A shell reads an escaped argument as one word, which is the argument.
pub proof fn lemma_escape_round_trip(s: Seq<char>)
    ensures
        shell_word(escaped(s), false) == Some(s),
{
    if s.len() == 0 {
        let e = seq!['\'', '\''];
        assert(e.skip(1)[0] == '\'');
        assert(e.skip(1).skip(1) =~= Seq::<char>::empty());
        assert(shell_word(e.skip(1).skip(1), false) == Some(Seq::<char>::empty()));
        assert(shell_word(e.skip(1), true) == Some(Seq::<char>::empty()));
        assert(s =~= Seq::<char>::empty());
    } else if forall|i: int| 0 <= i < s.len() ==> is_plain(#[trigger] s[i]) {
        lemma_plain_word(s);
    } else {
        let tail = seq!['\''];
        let e = seq!['\''] + quoted(s) + tail;
        assert(e.skip(1) =~= quoted(s) + tail);
        assert(e[0] == '\'');
        lemma_quoted_word(s, tail);
        assert(tail.skip(1) =~= Seq::<char>::empty());
        assert(shell_word(tail.skip(1), false) == Some(Seq::<char>::empty()));
        assert(shell_word(tail, true) == Some(Seq::<char>::empty()));
        assert(s + Seq::<char>::empty() =~= s);
    }
}

/// The escaped forms of some arguments.
pub open spec fn escaped_all(args: Seq<Seq<char>>) -> Seq<Seq<char>> {
    args.map_values(|a: Seq<char>| escaped(a))
}

/// Writes arguments as words of a shell command, with a space between them.
pub fn shell_join(args: &Vec<String>) -> (r: String)
    ensures
        r@ == text::joined(escaped_all(text::texts(args@)), " "@),
{
    let mut parts: Vec<String> = Vec::new();
    let mut i: usize = 0;
    while i < args.len()
        invariant
            i <= args.len(),
            parts@.len() == i,
            forall|j: int| 0 <= j < i ==> (#[trigger] parts@[j])@ == escaped(args@[j]@),
        decreases args.len() - i,
    {
        parts.push(shell_escape(args[i].as_str()));
        i += 1;
    }
    proof {
        assert(text::texts(parts@) =~= escaped_all(text::texts(args@)));
    }
    text::join(&parts, " ")
}

/// The words that run a command line in the shell of an operating system.
pub open spec fn shell_words(system: System, line: Seq<char>) -> Seq<Seq<char>> {
    match system {
        System::Unix => seq!["sh"@, "-c"@, line],
        System::Windows => seq!["cmd"@, "/C"@, line],
    }
}

/// Makes the words that run a command line in the shell of an operating system.
pub fn build_shell_command(system: System, cmd_str: &str) -> (r: Vec<String>)
    ensures
        text::texts(r@) == shell_words(system, cmd_str@),
{
    let mut v: Vec<String> = Vec::new();
    match system {
        System::Unix => {
            v.push(text::copy("sh"));
            v.push(text::copy("-c"));
        },
        System::Windows => {
            v.push(text::copy("cmd"));
            v.push(text::copy("/C"));
        },
    }
    v.push(text::copy(cmd_str));
    proof {
        assert(text::texts(v@) =~= shell_words(system, cmd_str@));
    }
    v
}

// ---------------------------------------------------------------------------
// Extra arguments
// ---------------------------------------------------------------------------

/// A text with every `$@` in it replaced, from the left.
pub open spec fn replaced(s: Seq<char>, with: Seq<char>) -> Seq<char>
    decreases s.len(),
{
    if s.len() == 0 {
        Seq::empty()
    } else if s.len() >= 2 && s[0] == '$' && s[1] == '@' {
        with + replaced(s.skip(2), with)
    } else {
        seq![s[0]] + replaced(s.skip(1), with)
    }
}

/// A text with every run of spaces cut down to one space.
pub open spec fn collapsed(s: Seq<char>, after_space: bool) -> Seq<char>
    decreases s.len(),
{
    if s.len() == 0 {
        Seq::empty()
    } else if s[0] == ' ' && after_space {
        collapsed(s.skip(1), true)
    } else {
        seq![s[0]] + collapsed(s.skip(1), s[0] == ' ')
    }
}

/// A command with extra arguments: in place of each `$@`, or behind it where it
/// has none. Without extra arguments `$@` goes, and the spaces round it.
pub open spec fn command_with(command: Seq<char>, args: Seq<Seq<char>>) -> Seq<char> {
    let joined = text::joined(escaped_all(args), " "@);
    if text::contains(command, "$@"@) {
        if args.len() == 0 {
            text::trimmed(collapsed(replaced(command, Seq::empty()), false))
        } else {
            replaced(command, joined)
        }
    } else if args.len() == 0 {
        command
    } else {
        command + " "@ + joined
    }
}

fn replace_args(s: &Vec<char>, with: &Vec<char>) -> (r: Vec<char>)
    ensures
        r@ == replaced(s@, with@),
{
    let mut out: Vec<char> = Vec::new();
    let mut i: usize = 0;
    proof {
        assert(s@.skip(0) =~= s@);
        assert(out@ + replaced(s@, with@) =~= replaced(s@, with@));
    }
    while i < s.len()
        invariant
            i <= s.len(),
            out@ + replaced(s@.skip(i as int), with@) == replaced(s@, with@),
        decreases s.len() - i,
    {
        let ghost rest = s@.skip(i as int);
        let ghost before = out@;
        proof {
            assert(rest[0] == s@[i as int]);
            if i + 1 < s@.len() {
                assert(rest[1] == s@[i + 1]);
            }
        }
        if s[i] == '$' && i + 1 < s.len() && s[i + 1] == '@' {
            let mut j: usize = 0;
            while j < with.len()
                invariant
                    j <= with.len(),
                    out@ == before + with@.take(j as int),
                decreases with.len() - j,
            {
                out.push(with[j]);
                proof {
                    assert(with@.take(j as int).push(with@[j as int]) =~= with@.take(j + 1));
                    assert((before + with@.take(j as int)).push(with@[j as int]) =~= before
                        + with@.take(j + 1));
                }
                j += 1;
            }
            proof {
                assert(with@.take(with@.len() as int) =~= with@);
                assert(rest.skip(2) =~= s@.skip(i + 2));
                assert((before + with@) + replaced(s@.skip(i + 2), with@) =~= before + (with@
                    + replaced(s@.skip(i + 2), with@)));
            }
            i += 2;
        } else {
            out.push(s[i]);
            proof {
                assert(rest.skip(1) =~= s@.skip(i + 1));
                assert(before.push(s@[i as int]) + replaced(s@.skip(i + 1), with@) =~= before + (
                seq![s@[i as int]] + replaced(s@.skip(i + 1), with@)));
            }
            i += 1;
        }
    }
    proof {
        assert(s@.skip(s@.len() as int) =~= Seq::<char>::empty());
        assert(out@ + Seq::<char>::empty() =~= out@);
    }
    out
}

fn collapse_spaces(s: &Vec<char>) -> (r: Vec<char>)
    ensures
        r@ == collapsed(s@, false),
{
    let mut out: Vec<char> = Vec::new();
    let mut after_space = false;
    let mut i: usize = 0;
    proof {
        assert(s@.skip(0) =~= s@);
        assert(out@ + collapsed(s@, false) =~= collapsed(s@, false));
    }
    while i < s.len()
        invariant
            i <= s.len(),
            out@ + collapsed(s@.skip(i as int), after_space) == collapsed(s@, false),
        decreases s.len() - i,
    {
        let ghost rest = s@.skip(i as int);
        let ghost before = out@;
        let c = s[i];
        proof {
            assert(rest[0] == c);
            assert(rest.skip(1) =~= s@.skip(i + 1));
        }
        if c == ' ' && after_space {
        } else {
            out.push(c);
            proof {
                assert(before.push(c) + collapsed(s@.skip(i + 1), c == ' ') =~= before + (seq![c]
                    + collapsed(s@.skip(i + 1), c == ' ')));
            }
        }
        after_space = c == ' ';
        i += 1;
    }
    proof {
        assert(s@.skip(s@.len() as int) =~= Seq::<char>::empty());
        assert(out@ + Seq::<char>::empty() =~= out@);
    }
    out
}

/// Puts extra arguments into a command.
pub fn build_command_with_args(command: &str, extra_args: &Vec<String>) -> (r: String)
    ensures
        r@ == command_with(command@, text::texts(extra_args@)),
{
    let s = text::chars_of(command);
    let placed = text::has(command, "$@");
    proof {
        assert(text::texts(extra_args@).len() == extra_args@.len());
    }
    if extra_args.len() == 0 {
        if placed {
            let none: Vec<char> = Vec::new();
            let bare = replace_args(&s, &none);
            let tight = collapse_spaces(&bare);
            let trimmed = text::trim_chars(&tight);
            proof {
                assert(none@ =~= Seq::<char>::empty());
            }
            text::string_of(&trimmed)
        } else {
            text::copy(command)
        }
    } else {
        let joined = shell_join(extra_args);
        if placed {
            let with = text::chars_of(joined.as_str());
            let done = replace_args(&s, &with);
            text::string_of(&done)
        } else {
            text::concat3(command, " ", joined.as_str())
        }
    }
}

} // verus!
