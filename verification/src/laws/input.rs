//! What is written to a process, and what is collected of its answer.
use crate::json;
use crate::json::Js;
use crate::laws::fields;
use crate::process::ProcessEntry;
use crate::protocol::{Response, SendArgs, SendWaitArgs};
use crate::psyfile;
use crate::ring_buffer::{LogLine, Stream};
use crate::root;
use crate::root::input;
use crate::root::input::{Collector, SendStep, WaitStep, WriteResult};
use crate::root::RootView;
use crate::root::SharedRoot;
use crate::text;
use crate::time::Timestamp;
use vstd::prelude::*;

verus! {

/// Whether a process can be written to: it runs, was started for input, and its stdin is
/// open.
pub open spec fn takes_input(r: RootView, name: Seq<char>) -> bool {
    &&& root::runs(r, name)
    &&& r.table[name].interactive
    &&& r.table[name].stdin_open
    &&& !r.table[name].stdin_closed
}

/// What a granted request to write and wait writes ends with a newline, and is the
/// input of the request without it. Only a process that takes input is written to.
pub proof fn lemma_waited_input_is_a_line(root: SharedRoot, id: &str, a: SendWaitArgs, r: WaitStep)
    requires
        call_ensures(SharedRoot::begin_send_wait, (&root, id, &Some(a)), r),
    ensures
        r matches WaitStep::Write(w, _, _) ==> {
            &&& w@.len() == a.input@.len() + 1
            &&& w@.last() == '\n'
            &&& w@.drop_last() == a.input@
            &&& takes_input(root@, a.name@)
        },
        r matches WaitStep::Answer(x) ==> !x.ok && x.id@ == id@ && x.error is Some,
{
    reveal_strlit("\n");
    if let WaitStep::Write(w, _, _) = r {
        assert(w@.drop_last() =~= a.input@);
    }
}

/// A request to write and wait is granted where the process takes input and the times can
/// be read. It waits for as long as it says: five seconds in all and 200 milliseconds for
/// the next line, where it says nothing.
pub proof fn lemma_write_and_wait_is_granted(
    root: SharedRoot,
    id: &str,
    a: SendWaitArgs,
    r: WaitStep,
)
    requires
        call_ensures(SharedRoot::begin_send_wait, (&root, id, &Some(a)), r),
        takes_input(root@, a.name@),
        a.timeout is Some ==> psyfile::duration_of(a.timeout->0@) is Ok,
        a.idle_timeout is Some ==> psyfile::duration_of(a.idle_timeout->0@) is Ok,
    ensures
        r is Write,
        a.timeout is None ==> r->Write_1.millis() == 5000,
        a.timeout is Some ==> r->Write_1 == psyfile::duration_of(a.timeout->0@)->Ok_0,
        a.idle_timeout is None ==> r->Write_2.millis() == 200,
        a.idle_timeout is Some ==> r->Write_2 == psyfile::duration_of(a.idle_timeout->0@)->Ok_0,
{
}

/// A request to write to a process writes its input as it is, and one to end the input
/// closes the stdin; both only where the process takes input.
pub proof fn lemma_input_is_written_as_it_is(
    root: &mut SharedRoot,
    id: &str,
    a: SendArgs,
    r: SendStep,
)
    requires
        call_ensures(SharedRoot::begin_send, (root, id, &Some(a)), r),
    ensures
        r matches SendStep::Write(w) ==> a.input is Some && w@ == a.input->0@ && !a.eof
            && takes_input(old(root)@, a.name@) && final(root)@ == old(root)@,
        r matches SendStep::Close(x) ==> a.eof && x.ok && root::runs(old(root)@, a.name@)
            && final(root)@.table[a.name@].stdin_closed && !final(root)@.table[a.name@].stdin_open,
        r matches SendStep::Answer(x) ==> !x.ok && x.id@ == id@ && x.error is Some && final(root)@
            == old(root)@,
        takes_input(old(root)@, a.name@) && !a.eof && a.input is Some ==> r is Write,
        takes_input(old(root)@, a.name@) && a.eof ==> r is Close,
        !root::runs(old(root)@, a.name@) || !old(root)@.table[a.name@].interactive || old(
            root,
        )@.table[a.name@].stdin_closed ==> r is Answer,
        takes_input(old(root)@, a.name@) && !a.eof && a.input is None ==> r is Answer,
{
}

/// After the input of a process has been ended, nothing more is written to it.
pub proof fn lemma_nothing_after_the_end(
    root: &mut SharedRoot,
    next: &mut SharedRoot,
    later: SharedRoot,
    id: &str,
    a: SendArgs,
    b: SendArgs,
    w: SendWaitArgs,
    first: Response,
    second: SendStep,
    third: WaitStep,
    attached: bool,
    name: &str,
)
    requires
        call_ensures(SharedRoot::begin_send, (root, id, &Some(a)), SendStep::Close(first)),
        old(next)@ == final(root)@,
        later@ == final(root)@,
        b.name@ == a.name@,
        w.name@ == a.name@,
        name@ == a.name@,
        call_ensures(SharedRoot::begin_send, (next, id, &Some(b)), second),
        call_ensures(SharedRoot::begin_send_wait, (&later, id, &Some(w)), third),
        call_ensures(SharedRoot::takes_attached_input, (&later, name), attached),
    ensures
        second is Answer,
        third is Answer,
        !attached,
{
}

/// A write that went through is answered with the name and the number of bytes; any other
/// is answered as an error, and says which.
pub proof fn lemma_write_is_answered(
    id: &str,
    name: &str,
    input: &str,
    w: WriteResult,
    r: Response,
    waiting: Option<Response>,
)
    requires
        call_ensures(input::send_answer, (id, name, input, &w), r),
        call_ensures(input::wait_write_answer, (id, &w), waiting),
    ensures
        r.id@ == id@,
        r.ok <==> w is Done,
        waiting is None <==> w is Done,
        waiting matches Some(x) ==> !x.ok && x.id@ == id@ && x.error is Some && x.error->0@
            == r.error->0@,
        r.ok ==> r.data is Some && json::member(json::model(r.data->0), "name"@) == Some(
            Js::Text(name@),
        ) && json::member(json::model(r.data->0), "bytes_written"@) == Some(
            Js::Unsigned(vstd::utf8::encode_utf8(input@).len() as u64),
        ),
        !r.ok ==> r.error is Some && r.data is None,
        w matches WriteResult::Failed(e) ==> text::ends_with(r.error->0@, e@),
        w matches WriteResult::NoHandle(n) ==> text::contains(r.error->0@, n@),
{
    match w {
        WriteResult::Done => {
            let s = seq![
                ("name"@, Js::Text(name@)),
                ("bytes_written"@, Js::Unsigned(vstd::utf8::encode_utf8(input@).len() as u64)),
            ];
            reveal_strlit("name");
            reveal_strlit("bytes_written");
            assert("name"@.len() != "bytes_written"@.len());
            fields::lemma_field(s, 0);
            fields::lemma_field(s, 1);
        },
        WriteResult::Failed(e) => {
            let m = r.error->0@;
            assert(m.subrange(m.len() - e@.len(), m.len() as int) =~= e@);
            assert(text::opt_text(waiting->0.error) == text::opt_text(r.error));
        },
        WriteResult::NoHandle(n) => {
            let m = r.error->0@;
            let k = "no stdin handle for '"@.len() as int;
            assert(m.subrange(k, k + n@.len()) =~= n@);
            assert(text::occurs_at(m, n@, k));
        },
        WriteResult::TimedOut => {},
    }
    if let Some(x) = waiting {
        assert(text::opt_text(x.error) == text::opt_text(r.error));
        assert(x.error->0@ == r.error->0@);
    }
}

/// What a process writes is collected line by line, except what its probes write, until a
/// line shows the prompt, whatever the case.
pub proof fn lemma_output_is_collected(
    prompt: Option<String>,
    fresh: Collector,
    c: &mut Collector,
    l: LogLine,
    stop: bool,
)
    requires
        call_ensures(Collector::new, (&prompt,), fresh),
        old(c).wanted() == fresh.wanted(),
        call_ensures(Collector::take_line, (c, &l), stop),
    ensures
        fresh.lines@.len() == 0,
        !fresh.matched_prompt,
        l.stream == Stream::Stdout || l.stream == Stream::Stderr ==> text::texts(final(c).lines@)
            == text::texts(old(c).lines@).push(l.content@),
        l.stream == Stream::ProbeStdout || l.stream == Stream::ProbeStderr ==> text::texts(
            final(c).lines@,
        ) == text::texts(old(c).lines@) && !stop,
        prompt is None ==> !stop,
        prompt is Some && (l.stream == Stream::Stdout || l.stream == Stream::Stderr) ==> (stop
            <==> text::contains(text::lowercase(l.content@), text::lowercase(prompt->0@))),
        stop ==> final(c).matched_prompt,
        !stop ==> final(c).matched_prompt == old(c).matched_prompt,
        final(c).wanted() == old(c).wanted(),
{
}

/// The answer has the lines that were collected, in order, and says whether the prompt was
/// among them.
pub proof fn lemma_collected_lines_are_answered(c: Collector, id: &str, name: &str, r: Response)
    requires
        call_ensures(Collector::answer, (&c, id, name), r),
    ensures
        r.ok,
        r.id@ == id@,
        r.data is Some,
        json::text_member(json::model(r.data->0), "name"@) == Some(name@),
        json::flag_member(json::model(r.data->0), "matched_prompt"@) == Some(c.matched_prompt),
        json::array_member(json::model(r.data->0), "lines"@) is Some,
        json::array_member(json::model(r.data->0), "lines"@)->0.len() == c.lines@.len(),
        forall|i: int|
            0 <= i < c.lines@.len() ==> #[trigger] json::array_member(
                json::model(r.data->0),
                "lines"@,
            )->0[i] == Js::Text(c.lines@[i]@),
{
    let lines = text::texts(c.lines@);
    let s = seq![
        ("name"@, Js::Text(name@)),
        ("lines"@, Js::Array(lines.map_values(|s: Seq<char>| Js::Text(s)))),
        ("matched_prompt"@, Js::Bool(c.matched_prompt)),
    ];
    reveal_strlit("name");
    reveal_strlit("lines");
    reveal_strlit("matched_prompt");
    assert("name"@.len() != "lines"@.len());
    assert("name"@.len() != "matched_prompt"@.len());
    assert("lines"@.len() != "matched_prompt"@.len());
    fields::lemma_field(s, 0);
    fields::lemma_field(s, 1);
    fields::lemma_field(s, 2);
}

/// Only a process that was started for input has its stdin kept open, and one that is
/// started anew can be written to again.
pub proof fn lemma_started_for_input(
    e: &mut ProcessEntry,
    pid: Option<u32>,
    now: Timestamp,
    attach: bool,
    interactive: bool,
)
    requires
        call_ensures(ProcessEntry::mark_started, (e, pid, now, attach, interactive), ()),
        !old(e)@.is_main,
    ensures
        interactive ==> final(e)@.interactive && final(e)@.stdin_open && !final(e)@.stdin_closed,
        attach ==> final(e)@.stdin_open,
        !interactive ==> final(e)@.interactive == old(e)@.interactive && final(e)@.stdin_closed
            == old(e)@.stdin_closed,
        !interactive && !attach ==> final(e)@.stdin_open == old(e)@.stdin_open,
{
}

} // verus!
