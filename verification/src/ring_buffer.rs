//! The log of a process: the newest lines, within a limit on their number and
//! on their size.
use crate::pattern;
use crate::pattern::Search;
use crate::protocol::{StreamFilter, StreamKind};
use crate::text;
use crate::time;
use crate::time::Timestamp;
use std::collections::VecDeque;
use vstd::prelude::*;

verus! {

/// Where a log line comes from.
#[derive(Clone, Copy, Debug, PartialEq, Eq, Structural)]
pub enum Stream {
    Stdout,
    Stderr,
    ProbeStdout,
    ProbeStderr,
}

impl Stream {
    /// Whether a probe wrote the line.
    pub open spec fn probe(self) -> bool {
        self == Stream::ProbeStdout || self == Stream::ProbeStderr
    }

    /// Tests whether a probe wrote the line.
    pub fn is_probe(self) -> (r: bool)
        ensures
            r == self.probe(),
    {
        self == Stream::ProbeStdout || self == Stream::ProbeStderr
    }

    /// The name of the stream in a log.
    pub open spec fn label_text(self) -> Seq<char> {
        match self {
            Stream::Stdout => "stdout"@,
            Stream::Stderr => "stderr"@,
            Stream::ProbeStdout => "probe:stdout"@,
            Stream::ProbeStderr => "probe:stderr"@,
        }
    }

    /// The name of the stream in a log.
    pub fn label(self) -> (r: &'static str)
        ensures
            r@ == self.label_text(),
    {
        match self {
            Stream::Stdout => "stdout",
            Stream::Stderr => "stderr",
            Stream::ProbeStdout => "probe:stdout",
            Stream::ProbeStderr => "probe:stderr",
        }
    }

    /// The stream as it is sent.
    pub open spec fn kind_sent(self) -> StreamKind {
        match self {
            Stream::Stdout => StreamKind::Stdout,
            Stream::Stderr => StreamKind::Stderr,
            Stream::ProbeStdout => StreamKind::ProbeStdout,
            Stream::ProbeStderr => StreamKind::ProbeStderr,
        }
    }
}

impl From<Stream> for StreamKind {
    fn from(s: Stream) -> (r: Self) {
        match s {
            Stream::Stdout => StreamKind::Stdout,
            Stream::Stderr => StreamKind::Stderr,
            Stream::ProbeStdout => StreamKind::ProbeStdout,
            Stream::ProbeStderr => StreamKind::ProbeStderr,
        }
    }
}

impl vstd::std_specs::convert::FromSpecImpl<Stream> for StreamKind {
    open spec fn obeys_from_spec() -> bool {
        true
    }

    open spec fn from_spec(s: Stream) -> StreamKind {
        s.kind_sent()
    }
}

/// A line of a log.
#[derive(Debug)]
pub struct LogLine {
    pub timestamp: Timestamp,
    pub stream: Stream,
    pub content: String,
}

/// What a log line says.
pub ghost struct LineView {
    pub timestamp: Timestamp,
    pub stream: Stream,
    pub content: Seq<char>,
}

impl View for LogLine {
    type V = LineView;

    open spec fn view(&self) -> LineView {
        LineView { timestamp: self.timestamp, stream: self.stream, content: self.content@ }
    }
}

impl Clone for LogLine {
    fn clone(&self) -> (r: Self)
        ensures
            r@ == self@,
    {
        LogLine {
            timestamp: self.timestamp,
            stream: self.stream,
            content: text::copy(self.content.as_str()),
        }
    }
}

/// A log line as it is shown.
pub open spec fn line_text(l: LineView) -> Seq<char> {
    "["@ + time::log_time(l.timestamp.seconds(), l.timestamp.subsec()) + " "@
        + l.stream.label_text() + "] "@ + l.content
}

impl LogLine {
    /// Writes the line as it is shown.
    pub fn to_string(&self) -> (r: String)
        ensures
            r@ == line_text(self@),
    {
        let at = self.timestamp.to_log_time();
        let mut out = text::concat3("[", at.as_str(), " ");
        text::push_text(&mut out, self.stream.label());
        text::push_text(&mut out, "] ");
        text::push_text(&mut out, self.content.as_str());
        out
    }
}

/// What some log lines say.
pub open spec fn lines_view(s: Seq<LogLine>) -> Seq<LineView> {
    s.map_values(|l: LogLine| l@)
}

/// The size of some log lines: the bytes of their contents.
pub open spec fn size(s: Seq<LineView>) -> nat
    decreases s.len(),
{
    if s.len() == 0 {
        0
    } else {
        size(s.skip(1)) + vstd::utf8::encode_utf8(s[0].content).len()
    }
}

/// Whether some log lines are within the limits.
pub open spec fn fits(s: Seq<LineView>, max_lines: nat, max_bytes: nat) -> bool {
    s.len() <= max_lines && size(s) <= max_bytes
}

/// The log lines that are left when the oldest have gone, as many as it takes to
/// be within the limits.
pub open spec fn evicted(s: Seq<LineView>, max_lines: nat, max_bytes: nat) -> Seq<LineView>
    decreases s.len(),
{
    if s.len() == 0 || fits(s, max_lines, max_bytes) {
        s
    } else {
        evicted(s.skip(1), max_lines, max_bytes)
    }
}

proof fn lemma_size_push(s: Seq<LineView>, l: LineView)
    ensures
        size(s.push(l)) == size(s) + vstd::utf8::encode_utf8(l.content).len(),
    decreases s.len(),
{
    if s.len() == 0 {
        assert(s.push(l).skip(1) =~= Seq::<LineView>::empty());
        assert(size(s.push(l).skip(1)) == 0);
    } else {
        assert(s.push(l).skip(1) =~= s.skip(1).push(l));
        lemma_size_push(s.skip(1), l);
    }
}

proof fn lemma_size_suffix(s: Seq<LineView>, k: int)
    requires
        0 <= k <= s.len(),
    ensures
        size(s.skip(k)) <= size(s),
    decreases k,
{
    if k == 0 {
        assert(s.skip(0) =~= s);
    } else {
        lemma_size_suffix(s.skip(1), k - 1);
        assert(s.skip(1).skip(k - 1) =~= s.skip(k));
    }
}

/// What eviction leaves is the longest run of newest lines within the limits.
pub proof fn lemma_evicted(s: Seq<LineView>, max_lines: nat, max_bytes: nat)
    ensures
        evicted(s, max_lines, max_bytes).len() <= s.len(),
        evicted(s, max_lines, max_bytes) == s.skip(
            s.len() - evicted(s, max_lines, max_bytes).len(),
        ),
        fits(evicted(s, max_lines, max_bytes), max_lines, max_bytes),
        forall|k: int|
            0 <= k <= s.len() && fits(#[trigger] s.skip(k), max_lines, max_bytes) ==> s.len() - k
                <= evicted(s, max_lines, max_bytes).len(),
    decreases s.len(),
{
    if s.len() == 0 || fits(s, max_lines, max_bytes) {
        assert(s.skip(0) =~= s);
    } else {
        let rest = s.skip(1);
        let e = evicted(s, max_lines, max_bytes);
        lemma_evicted(rest, max_lines, max_bytes);
        assert(rest.skip(rest.len() - e.len()) =~= s.skip(s.len() - e.len()));
        assert forall|k: int|
            0 <= k <= s.len() && fits(#[trigger] s.skip(k), max_lines, max_bytes) implies s.len()
            - k <= e.len() by {
            if k == 0 {
                assert(s.skip(0) =~= s);
            } else {
                assert(rest.skip(k - 1) =~= s.skip(k));
            }
        }
    }
}

/// The limit on the number of lines that a log has by default.
pub const DEFAULT_MAX_LINES: usize = 10_000;

/// The limit on the bytes that a log has by default.
pub const DEFAULT_MAX_BYTES: usize = 2_097_152;

/// The lines of a log after one more has come.
pub open spec fn pushed(
    s: Seq<LineView>,
    line: LineView,
    max_lines: nat,
    max_bytes: nat,
) -> Seq<LineView> {
    evicted(s.push(line), max_lines, max_bytes)
}

proof fn lemma_suffix_evicted(
    s: Seq<LineView>,
    t: Seq<LineView>,
    max_lines: nat,
    max_bytes: nat,
)
    requires
        t.len() <= s.len(),
        t == s.skip(s.len() - t.len()),
        evicted(s, max_lines, max_bytes).len() <= t.len(),
    ensures
        evicted(t, max_lines, max_bytes) == evicted(s, max_lines, max_bytes),
    decreases s.len(),
{
    if t.len() == s.len() {
        assert(t =~= s);
    } else {
        assert(!fits(s, max_lines, max_bytes));
        assert(s.skip(1).skip(s.skip(1).len() - t.len()) =~= t);
        lemma_suffix_evicted(s.skip(1), t, max_lines, max_bytes);
    }
}

/// What has gone from a log makes no difference any more: a line that comes leaves the
/// same lines whether the oldest had gone before it or not.
pub proof fn lemma_pushed(s: Seq<LineView>, line: LineView, max_lines: nat, max_bytes: nat)
    ensures
        pushed(evicted(s, max_lines, max_bytes), line, max_lines, max_bytes) == pushed(
            s,
            line,
            max_lines,
            max_bytes,
        ),
{
    let e = evicted(s, max_lines, max_bytes);
    let all = s.push(line);
    let t = e.push(line);
    lemma_evicted(s, max_lines, max_bytes);
    lemma_evicted(all, max_lines, max_bytes);
    assert(t =~= all.skip(all.len() - t.len()));
    let left = evicted(all, max_lines, max_bytes);
    if left.len() > t.len() {
        let k = all.len() - left.len();
        let before = s.skip(k);
        assert(all.skip(k) =~= before.push(line));
        lemma_size_push(before, line);
        assert(fits(before, max_lines, max_bytes));
    }
    lemma_suffix_evicted(all, t, max_lines, max_bytes);
}

/// The lines of a log after some have come, one after the other.
pub open spec fn pushed_all(
    s: Seq<LineView>,
    lines: Seq<LineView>,
    max_lines: nat,
    max_bytes: nat,
) -> Seq<LineView>
    decreases lines.len(),
{
    if lines.len() == 0 {
        s
    } else {
        pushed(
            pushed_all(s, lines.drop_last(), max_lines, max_bytes),
            lines.last(),
            max_lines,
            max_bytes,
        )
    }
}

/// A log holds the longest run of newest lines within the limits, of all lines that ever
/// came.
pub proof fn lemma_newest_kept(lines: Seq<LineView>, max_lines: nat, max_bytes: nat)
    ensures
        pushed_all(Seq::empty(), lines, max_lines, max_bytes) == evicted(
            lines,
            max_lines,
            max_bytes,
        ),
    decreases lines.len(),
{
    if lines.len() > 0 {
        let rest = lines.drop_last();
        lemma_newest_kept(rest, max_lines, max_bytes);
        lemma_pushed(rest, lines.last(), max_lines, max_bytes);
        assert(rest.push(lines.last()) =~= lines);
    }
}

/// The lines of a log, their size and its limits.
#[derive(Debug)]
struct Inner {
    buf: VecDeque<LogLine>,
    total_bytes: usize,
    max_lines: usize,
    max_bytes: usize,
}

/// The newest lines of a log.
#[derive(Debug)]
pub struct RingBuffer {
    inner: Inner,
}

impl View for RingBuffer {
    type V = Seq<LineView>;

    closed spec fn view(&self) -> Seq<LineView> {
        lines_view(self.inner.buf@)
    }
}

/// Whether a line is in the streams and within the time that a question asks for.
pub open spec fn in_scope(
    l: LineView,
    filter: StreamFilter,
    since: Option<Timestamp>,
    until: Option<Timestamp>,
) -> bool {
    &&& match filter {
        StreamFilter::All => !l.stream.probe(),
        StreamFilter::Stdout => l.stream == Stream::Stdout,
        StreamFilter::Stderr => l.stream == Stream::Stderr,
        StreamFilter::Probe => l.stream.probe(),
        StreamFilter::ProbeStdout => l.stream == Stream::ProbeStdout,
        StreamFilter::ProbeStderr => l.stream == Stream::ProbeStderr,
    }
    &&& since matches Some(s) ==> !l.timestamp.before(s)
    &&& until matches Some(u) ==> !u.before(l.timestamp)
}

/// Whether a line answers a question: it is in the streams asked for, within the
/// time asked for, and holds the pattern asked for, whatever the case.
pub open spec fn keeps(
    l: LineView,
    filter: StreamFilter,
    since: Option<Timestamp>,
    until: Option<Timestamp>,
    grep: Option<Seq<char>>,
) -> bool {
    in_scope(l, filter, since, until) && pattern::holds(grep, l.content)
}

/// The lines that answer a question, oldest first.
pub open spec fn selected(
    s: Seq<LineView>,
    filter: StreamFilter,
    since: Option<Timestamp>,
    until: Option<Timestamp>,
    grep: Option<Seq<char>>,
) -> Seq<LineView>
    decreases s.len(),
{
    if s.len() == 0 {
        Seq::empty()
    } else if keeps(s.last(), filter, since, until, grep) {
        selected(s.drop_last(), filter, since, until, grep).push(s.last())
    } else {
        selected(s.drop_last(), filter, since, until, grep)
    }
}

/// The last `n` lines, or all of them.
pub open spec fn tail_of(s: Seq<LineView>, n: Option<usize>) -> Seq<LineView> {
    match n {
        Some(k) => if k >= s.len() {
            s
        } else {
            s.skip(s.len() - k)
        },
        None => s,
    }
}

/// Tests whether a line answers a question, where it is known whether the line
/// holds the pattern asked for.
pub fn line_matches(
    l: &LogLine,
    filter: StreamFilter,
    since: &Option<Timestamp>,
    until: &Option<Timestamp>,
    found: bool,
) -> (r: bool)
    ensures
        r == (in_scope(l@, filter, *since, *until) && found),
{
    let stream_ok = match filter {
        StreamFilter::All => !l.stream.is_probe(),
        StreamFilter::Stdout => l.stream == Stream::Stdout,
        StreamFilter::Stderr => l.stream == Stream::Stderr,
        StreamFilter::Probe => l.stream.is_probe(),
        StreamFilter::ProbeStdout => l.stream == Stream::ProbeStdout,
        StreamFilter::ProbeStderr => l.stream == Stream::ProbeStderr,
    };
    if !stream_ok {
        return false;
    }
    if let Some(s) = since {
        if l.timestamp.is_before(s) {
            return false;
        }
    }
    if let Some(u) = until {
        if u.is_before(&l.timestamp) {
            return false;
        }
    }
    found
}

/// The last `n` of some lines.
pub fn keep_tail(lines: Vec<LogLine>, tail: Option<usize>) -> (r: Vec<LogLine>)
    ensures
        lines_view(r@) == tail_of(lines_view(lines@), tail),
{
    match tail {
        None => lines,
        Some(n) => {
            if n >= lines.len() {
                lines
            } else {
                let mut rest = lines;
                let cut = rest.len() - n;
                let last = rest.split_off(cut);
                proof {
                    assert(lines_view(last@) =~= lines_view(lines@).skip(lines@.len() - n));
                }
                last
            }
        },
    }
}

impl RingBuffer {
    /// The limit on the number of lines.
    pub closed spec fn line_limit(&self) -> nat {
        self.inner.max_lines as nat
    }

    /// The limit on the bytes.
    pub closed spec fn byte_limit(&self) -> nat {
        self.inner.max_bytes as nat
    }

    #[verifier::type_invariant]
    spec fn within_limits(&self) -> bool {
        &&& self.inner.total_bytes == size(lines_view(self.inner.buf@))
        &&& fits(lines_view(self.inner.buf@), self.inner.max_lines as nat, self.inner.max_bytes as nat)
    }

    /// An empty log with the default limits.
    pub fn new() -> (r: RingBuffer)
        ensures
            r@ == Seq::<LineView>::empty(),
            r.line_limit() == DEFAULT_MAX_LINES,
            r.byte_limit() == DEFAULT_MAX_BYTES,
    {
        RingBuffer::with_capacity(DEFAULT_MAX_LINES, DEFAULT_MAX_BYTES)
    }

    /// An empty log with the given limits.
    pub fn with_capacity(max_lines: usize, max_bytes: usize) -> (r: RingBuffer)
        ensures
            r@ == Seq::<LineView>::empty(),
            r.line_limit() == max_lines,
            r.byte_limit() == max_bytes,
    {
        let buf: VecDeque<LogLine> = VecDeque::new();
        proof {
            assert(lines_view(buf@) =~= Seq::<LineView>::empty());
        }
        RingBuffer { inner: Inner { buf, total_bytes: 0, max_lines, max_bytes } }
    }

    /// Adds a line that came at the given time. The oldest lines go where the log
    /// would be over its limits.
    pub fn push_at(&mut self, timestamp: Timestamp, stream: Stream, content: String)
        ensures
            final(self)@ == pushed(
                old(self)@,
                LineView { timestamp, stream, content: content@ },
                old(self).line_limit(),
                old(self).byte_limit(),
            ),
            fits(final(self)@, old(self).line_limit(), old(self).byte_limit()),
            final(self).line_limit() == old(self).line_limit(),
            final(self).byte_limit() == old(self).byte_limit(),
    {
        proof {
            use_type_invariant(&*self);
        }
        let ghost before = self@;
        let ghost line = LineView { timestamp, stream, content: content@ };
        let ghost lines = self.inner.max_lines as nat;
        let ghost bytes = self.inner.max_bytes as nat;
        let mut inner = Inner {
            buf: VecDeque::new(),
            total_bytes: 0,
            max_lines: self.inner.max_lines,
            max_bytes: self.inner.max_bytes,
        };
        proof {
            assert(lines_view(inner.buf@) =~= Seq::<LineView>::empty());
        }
        std::mem::swap(&mut inner, &mut self.inner);
        let mut total: u128 = inner.total_bytes as u128 + text::byte_len(
            content.as_str(),
        ) as u128;
        inner.buf.push_back(LogLine { timestamp, stream, content });
        proof {
            assert(lines_view(inner.buf@) =~= before.push(line));
            lemma_size_push(before, line);
        }
        while inner.buf.len() > inner.max_lines || total > inner.max_bytes as u128
            invariant
                inner.max_lines == lines,
                inner.max_bytes == bytes,
                total == size(lines_view(inner.buf@)),
                evicted(lines_view(inner.buf@), lines, bytes) == pushed(before, line, lines, bytes),
            decreases inner.buf@.len(),
        {
            let ghost now = inner.buf@;
            match inner.buf.pop_front() {
                Some(gone) => {
                    proof {
                        assert(lines_view(inner.buf@) =~= lines_view(now).skip(1));
                        assert(lines_view(now)[0] == gone@);
                    }
                    total = total - text::byte_len(gone.content.as_str()) as u128;
                },
                None => {
                    proof {
                        assert(lines_view(now).len() == 0);
                        assert(false);
                    }
                },
            }
        }
        inner.total_bytes = total as usize;
        self.inner = inner;
    }

    /// Adds a line that comes now.
    pub fn push(&mut self, stream: Stream, content: String)
        ensures
            exists|timestamp: Timestamp|
                final(self)@ == #[trigger] pushed(
                    old(self)@,
                    LineView { timestamp, stream, content: content@ },
                    old(self).line_limit(),
                    old(self).byte_limit(),
                ),
            fits(final(self)@, old(self).line_limit(), old(self).byte_limit()),
            final(self).line_limit() == old(self).line_limit(),
            final(self).byte_limit() == old(self).byte_limit(),
    {
        let at = time::now();
        self.push_at(at, stream, content);
    }

    /// The lines that answer a question, oldest first, and of those the last
    /// `tail`.
    pub fn lines(
        &self,
        tail: Option<usize>,
        filter: StreamFilter,
        since: Option<Timestamp>,
        until: Option<Timestamp>,
        grep: Option<&str>,
    ) -> (r: Vec<LogLine>)
        ensures
            lines_view(r@) == tail_of(
                selected(self@, filter, since, until, pattern::given(grep)),
                tail,
            ),
    {
        let ghost all = self@;
        let ghost wanted = pattern::given(grep);
        let search = Search::new(grep);
        let mut out: Vec<LogLine> = Vec::new();
        let mut i: usize = 0;
        proof {
            assert(lines_view(out@) =~= selected(all.take(0), filter, since, until, wanted));
        }
        while i < self.inner.buf.len()
            invariant
                i <= self.inner.buf@.len(),
                all == lines_view(self.inner.buf@),
                forall|s: Seq<char>| #[trigger] search.finds(s) == pattern::holds(wanted, s),
                lines_view(out@) == selected(all.take(i as int), filter, since, until, wanted),
            decreases self.inner.buf@.len() - i,
        {
            let l = &self.inner.buf[i];
            proof {
                assert(all.take(i + 1).drop_last() =~= all.take(i as int));
                assert(all.take(i + 1).last() == l@);
            }
            let found = search.matches(l.content.as_str());
            if line_matches(l, filter, &since, &until, found) {
                let ghost before = out@;
                let c = l.clone();
                out.push(c);
                proof {
                    assert(lines_view(out@) =~= lines_view(before).push(l@));
                }
            }
            i += 1;
        }
        proof {
            assert(all.take(all.len() as int) =~= all);
        }
        keep_tail(out, tail)
    }
}

impl Default for RingBuffer {
    fn default() -> (r: Self)
        ensures
            r@ == Seq::<LineView>::empty(),
            r.line_limit() == DEFAULT_MAX_LINES,
            r.byte_limit() == DEFAULT_MAX_BYTES,
    {
        RingBuffer::new()
    }
}

} // verus!
