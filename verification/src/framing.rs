//! Framing: lines of a bounded length, and the events of a stream.

use vstd::prelude::*;

verus! {

/// The most bytes of a line.
pub const MAX_NDJSON_LINE_BYTES: usize = 524_288;

/// The most bytes of a reply of the broker, and of an event of a stream.
pub const MAX_PRIVATE_RESPONSE_BYTES: usize = 1_048_576;

/// One line of the input.
#[derive(Debug)]
pub enum BoundedLine {
    Line(Vec<u8>),
    Oversized,
    Eof,
}

/// One line of the input.
pub enum LineView {
    Line(Seq<u8>),
    Oversized,
    Eof,
}

impl View for BoundedLine {
    type V = LineView;

    open spec fn view(&self) -> LineView {
        match self {
            BoundedLine::Line(line) => LineView::Line(line@),
            BoundedLine::Oversized => LineView::Oversized,
            BoundedLine::Eof => LineView::Eof,
        }
    }
}

/// The line that is being read.
#[derive(Debug)]
pub struct LineReader {
    pub line: Vec<u8>,
    pub oversized: bool,
}

/// The line that is being read: its bytes so far, or that they are too many.
pub enum PartialLine {
    Within(Seq<u8>),
    Oversized,
}

/// The place of the first line feed, or the number of bytes.
pub open spec fn line_end(bytes: Seq<u8>) -> int
    decreases bytes.len(),
{
    if bytes.len() == 0 || bytes[0] == 10 {
        0
    } else {
        1 + line_end(bytes.skip(1))
    }
}

/// Some bytes hold a line feed.
pub open spec fn ends_line(bytes: Seq<u8>) -> bool {
    line_end(bytes) < bytes.len()
}

/// What a line comes to with more bytes.
pub open spec fn extended(line: PartialLine, more: Seq<u8>) -> PartialLine {
    match line {
        PartialLine::Oversized => PartialLine::Oversized,
        PartialLine::Within(bytes) => if bytes.len() + more.len() > MAX_NDJSON_LINE_BYTES {
            PartialLine::Oversized
        } else {
            PartialLine::Within(bytes + more)
        },
    }
}

/// A line without the carriage return at its end.
pub open spec fn without_cr(line: Seq<u8>) -> Seq<u8> {
    if line.len() > 0 && line.last() == 13 {
        line.drop_last()
    } else {
        line
    }
}

/// A line at its line feed.
pub open spec fn ended(line: PartialLine) -> LineView {
    match line {
        PartialLine::Oversized => LineView::Oversized,
        PartialLine::Within(bytes) => LineView::Line(without_cr(bytes)),
    }
}

/// A line at the end of the input.
pub open spec fn ended_input(line: PartialLine) -> LineView {
    match line {
        PartialLine::Oversized => LineView::Oversized,
        PartialLine::Within(bytes) => if bytes.len() == 0 {
            LineView::Eof
        } else {
            LineView::Line(bytes)
        },
    }
}

/// How many of some bytes a line takes: those up to its line feed.
pub open spec fn taken(available: Seq<u8>) -> int {
    if ends_line(available) {
        line_end(available) + 1
    } else {
        available.len() as int
    }
}

/// The line that is being read after some bytes.
pub open spec fn fed(line: PartialLine, available: Seq<u8>) -> PartialLine {
    extended(line, available.take(line_end(available)))
}

impl LineReader {
    /// What the line that is being read is so far.
    pub open spec fn partial(&self) -> PartialLine {
        if self.oversized {
            PartialLine::Oversized
        } else {
            PartialLine::Within(self.line@)
        }
    }

    /// A line within its limit, and none where it is too long.
    pub open spec fn ok(&self) -> bool {
        self.line@.len() <= MAX_NDJSON_LINE_BYTES && (self.oversized ==> self.line@.len() == 0)
    }

    /// A reader at the start of a line.
    pub fn new() -> (r: Self)
        ensures
            r.ok(),
            r.partial() == PartialLine::Within(Seq::empty()),
    {
        let r = LineReader { line: Vec::new(), oversized: false };
        assert(r.line@ =~= Seq::<u8>::empty());
        r
    }

    /// Takes the bytes that are available: how many of them belong to the line, and
    /// the line if it ends. A line that ended leaves the reader at the start of the
    /// next.
    pub fn feed(&mut self, available: &[u8]) -> (r: (usize, Option<BoundedLine>))
        requires
            old(self).ok(),
        ensures
            final(self).ok(),
            r.0 == taken(available@),
            r.1 is Some == ends_line(available@),
            r.1 is Some ==> r.1->0@ == ended(fed(old(self).partial(), available@))
                && final(self).partial() == PartialLine::Within(Seq::empty()),
            r.1 is None ==> final(self).partial() == fed(old(self).partial(), available@),
    {
        let end = find_line_end(available);
        let content = vstd::slice::slice_subrange(available, 0, end);
        assert(content@ =~= available@.take(end as int));
        if !self.oversized {
            if content.len() > MAX_NDJSON_LINE_BYTES - self.line.len() {
                self.line.clear();
                self.oversized = true;
            } else {
                self.line.extend_from_slice(content);
                assert(self.line@ =~= old(self).line@ + content@);
            }
        }
        assert(self.partial() == fed(old(self).partial(), available@));
        if end == available.len() {
            return (end, None);
        }
        let oversized = self.oversized;
        self.oversized = false;
        let mut line: Vec<u8> = Vec::new();
        std::mem::swap(&mut line, &mut self.line);
        assert(self.line@ =~= Seq::<u8>::empty());
        if oversized {
            return (end + 1, Some(BoundedLine::Oversized));
        }
        if line.len() > 0 && line[line.len() - 1] == 13 {
            let ghost before = line@;
            let _ = line.pop();
            assert(line@ =~= before.drop_last());
        }
        (end + 1, Some(BoundedLine::Line(line)))
    }

    /// Ends the input: what is left is a line too, if it is not empty.
    pub fn finish(self) -> (r: BoundedLine)
        requires
            self.ok(),
        ensures
            r@ == ended_input(self.partial()),
    {
        if self.oversized {
            BoundedLine::Oversized
        } else if self.line.len() == 0 {
            BoundedLine::Eof
        } else {
            BoundedLine::Line(self.line)
        }
    }
}

fn find_line_end(bytes: &[u8]) -> (r: usize)
    ensures
        r == line_end(bytes@),
        r <= bytes@.len(),
{
    let mut i: usize = 0;
    assert(bytes@.skip(0) =~= bytes@);
    while i < bytes.len()
        invariant
            i <= bytes.len(),
            line_end(bytes@) == i + line_end(bytes@.skip(i as int)),
        decreases bytes.len() - i,
    {
        if bytes[i] == 10 {
            assert(bytes@.skip(i as int)[0] == 10);
            return i;
        }
        assert(bytes@.skip(i as int).skip(1) =~= bytes@.skip(i + 1));
        i += 1;
    }
    assert(bytes@.skip(i as int).len() == 0);
    i
}

proof fn lemma_line_end_bounds(s: Seq<u8>)
    ensures
        0 <= line_end(s) <= s.len(),
    decreases s.len(),
{
    if s.len() > 0 && s[0] != 10 {
        lemma_line_end_bounds(s.skip(1));
    }
}

proof fn lemma_line_end_joined(a: Seq<u8>, b: Seq<u8>)
    requires
        !ends_line(a),
    ensures
        line_end(a + b) == a.len() + line_end(b),
        line_end(a) == a.len(),
    decreases a.len(),
{
    lemma_line_end_bounds(a);
    if a.len() == 0 {
        assert(a + b =~= b);
    } else {
        assert((a + b)[0] == a[0]);
        assert((a + b).skip(1) =~= a.skip(1) + b);
        lemma_line_end_joined(a.skip(1), b);
    }
}

/// How the input is cut into pieces does not matter: a line that is read in two
/// pieces is the line that is read in one.
pub proof fn law_lines_do_not_depend_on_pieces(line: PartialLine, a: Seq<u8>, b: Seq<u8>)
    requires
        !ends_line(a),
        line is Within ==> line->Within_0.len() <= MAX_NDJSON_LINE_BYTES,
    ensures
        fed(line, a + b) == fed(fed(line, a), b),
        ends_line(a + b) == ends_line(b),
        taken(a + b) == a.len() + taken(b),
{
    lemma_line_end_joined(a, b);
    lemma_line_end_bounds(b);
    assert(a.take(line_end(a)) =~= a);
    assert((a + b).take(line_end(a + b)) =~= a + b.take(line_end(b)));
    match line {
        PartialLine::Within(bytes) => {
            assert(bytes + a + b.take(line_end(b)) =~= bytes + (a + b.take(line_end(b))));
        },
        PartialLine::Oversized => {},
    }
}

/// A line that is handed on is never longer than the limit.
pub proof fn law_lines_are_bounded(line: PartialLine, available: Seq<u8>)
    requires
        line is Within ==> line->Within_0.len() <= MAX_NDJSON_LINE_BYTES,
    ensures
        match ended(fed(line, available)) {
            LineView::Line(bytes) => bytes.len() <= MAX_NDJSON_LINE_BYTES,
            _ => true,
        },
{
    lemma_line_end_bounds(available);
}

/// Where the event that starts a buffer ends if it ends at a place: where the next
/// one starts.
pub open spec fn boundary_at(buffer: Seq<u8>, i: int) -> Option<int> {
    if 0 <= i && i + 2 <= buffer.len() && ((buffer[i] == 10 && buffer[i + 1] == 10) || (buffer[i]
        == 13 && buffer[i + 1] == 13)) {
        Some(i + 2)
    } else if 0 <= i && i + 4 <= buffer.len() && buffer[i] == 13 && buffer[i + 1] == 10 && buffer[i
        + 2] == 13 && buffer[i + 3] == 10 {
        Some(i + 4)
    } else {
        None
    }
}

/// Where the event that starts a buffer ends, from a place on, and where the next
/// one starts: at the first empty line.
pub open spec fn boundary_from(buffer: Seq<u8>, i: int) -> Option<(int, int)>
    decreases buffer.len() - i,
{
    if i < 0 || i >= buffer.len() {
        None
    } else {
        match boundary_at(buffer, i) {
            Some(end) => Some((i, end)),
            None => boundary_from(buffer, i + 1),
        }
    }
}

/// Where the event that starts a buffer ends, and where the next one starts.
pub open spec fn boundary(buffer: Seq<u8>) -> Option<(int, int)> {
    boundary_from(buffer, 0)
}

/// A boundary as whole numbers.
pub open spec fn boundary_ints(b: Option<(usize, usize)>) -> Option<(int, int)> {
    match b {
        Some((start, end)) => Some((start as int, end as int)),
        None => None,
    }
}

/// Finds where the event that starts a buffer ends, and where the next one starts.
pub fn operation_sse_boundary(buffer: &[u8]) -> (r: Option<(usize, usize)>)
    ensures
        boundary_ints(r) == boundary(buffer@),
        r is Some ==> (r->0).0 < (r->0).1 <= buffer@.len(),
{
    let n: usize = buffer.len();
    let mut i: usize = 0;
    while i < n
        invariant
            i <= n,
            n == buffer@.len(),
            boundary(buffer@) == boundary_from(buffer@, i as int),
        decreases n - i,
    {
        if n - i >= 2 && ((buffer[i] == 10 && buffer[i + 1] == 10) || (buffer[i] == 13 && buffer[i
            + 1] == 13)) {
            return Some((i, i + 2));
        }
        if n - i >= 4 && buffer[i] == 13 && buffer[i + 1] == 10 && buffer[i + 2] == 13 && buffer[i
            + 3] == 10 {
            return Some((i, i + 4));
        }
        i += 1;
    }
    None
}

/// One event of a stream, without the empty line at its end, or that it is too
/// long.
#[derive(Debug)]
pub enum StreamFrame {
    Event(Vec<u8>),
    TooLong,
}

/// One event of a stream.
pub enum FrameView {
    Event(Seq<u8>),
    TooLong,
}

impl View for StreamFrame {
    type V = FrameView;

    open spec fn view(&self) -> FrameView {
        match self {
            StreamFrame::Event(bytes) => FrameView::Event(bytes@),
            StreamFrame::TooLong => FrameView::TooLong,
        }
    }
}

/// Some events of a stream.
pub open spec fn frame_views(frames: Seq<StreamFrame>) -> Seq<FrameView> {
    frames.map_values(|f: StreamFrame| f@)
}

/// The events of a buffer, and what is left of it: the start of the next event. An
/// event that is too long takes the rest of the buffer with it.
pub open spec fn framed(buffer: Seq<u8>) -> (Seq<FrameView>, Seq<u8>)
    decreases buffer.len(),
{
    match boundary(buffer) {
        None => if buffer.len() > MAX_PRIVATE_RESPONSE_BYTES {
            (seq![FrameView::TooLong], Seq::empty())
        } else {
            (Seq::empty(), buffer)
        },
        Some((start, end)) => if end > MAX_PRIVATE_RESPONSE_BYTES || end <= 0 || end > buffer.len() {
            (seq![FrameView::TooLong], Seq::empty())
        } else {
            let rest = framed(buffer.skip(end));
            (seq![FrameView::Event(buffer.take(start))] + rest.0, rest.1)
        },
    }
}

/// The bytes of a stream of which no event has ended yet.
#[derive(Debug)]
pub struct StreamBuffer {
    pub buffer: Vec<u8>,
}

impl StreamBuffer {
    /// A stream of which nothing came.
    pub fn new() -> (r: Self)
        ensures
            r.buffer@ == Seq::<u8>::empty(),
    {
        let r = StreamBuffer { buffer: Vec::new() };
        assert(r.buffer@ =~= Seq::<u8>::empty());
        r
    }

    /// Takes the next bytes of the stream, and hands out the events that end.
    pub fn feed(&mut self, chunk: &[u8]) -> (r: Vec<StreamFrame>)
        requires
            old(self).buffer@.len() <= MAX_PRIVATE_RESPONSE_BYTES,
        ensures
            frame_views(r@) == framed(old(self).buffer@ + chunk@).0,
            final(self).buffer@ == framed(old(self).buffer@ + chunk@).1,
            final(self).buffer@.len() <= MAX_PRIVATE_RESPONSE_BYTES,
    {
        self.buffer.extend_from_slice(chunk);
        assert(self.buffer@ =~= old(self).buffer@ + chunk@);
        let ghost whole = self.buffer@;
        let mut frames: Vec<StreamFrame> = Vec::new();
        let mut from: usize = 0;
        proof {
            assert(whole.skip(0) =~= whole);
            assert(frame_views(frames@) + framed(whole).0 =~= framed(whole).0);
        }
        let n: usize = self.buffer.len();
        loop
            invariant
                from <= n,
                n == whole.len(),
                self.buffer@ == whole,
                whole == old(self).buffer@ + chunk@,
                framed(whole).0 == frame_views(frames@) + framed(whole.skip(from as int)).0,
                framed(whole).1 == framed(whole.skip(from as int)).1,
            decreases n - from,
        {
            let rest = vstd::slice::slice_subrange(self.buffer.as_slice(), from, n);
            assert(rest@ =~= whole.skip(from as int));
            let ghost before = frame_views(frames@);
            match operation_sse_boundary(rest) {
                None => {
                    if n - from > MAX_PRIVATE_RESPONSE_BYTES {
                        frames.push(StreamFrame::TooLong);
                        self.buffer = Vec::new();
                        assert(self.buffer@ =~= Seq::<u8>::empty());
                        assert(frame_views(frames@) =~= before + seq![FrameView::TooLong]);
                    } else {
                        let left = slice_vec(rest);
                        self.buffer = left;
                        assert(frame_views(frames@) =~= before + Seq::<FrameView>::empty());
                    }
                    return frames;
                },
                Some((start, end)) => {
                    if end > MAX_PRIVATE_RESPONSE_BYTES {
                        frames.push(StreamFrame::TooLong);
                        self.buffer = Vec::new();
                        assert(self.buffer@ =~= Seq::<u8>::empty());
                        assert(frame_views(frames@) =~= before + seq![FrameView::TooLong]);
                        return frames;
                    }
                    let event = slice_vec(vstd::slice::slice_subrange(rest, 0, start));
                    assert(event@ =~= rest@.take(start as int));
                    frames.push(StreamFrame::Event(event));
                    proof {
                        let tail = framed(rest@.skip(end as int));
                        assert(rest@.skip(end as int) =~= whole.skip(from + end));
                        assert(frame_views(frames@) =~= before.push(
                            FrameView::Event(rest@.take(start as int)),
                        ));
                        assert(before + (seq![FrameView::Event(rest@.take(start as int))] + tail.0)
                            =~= frame_views(frames@) + tail.0);
                    }
                    from = from + end;
                },
            }
        }
    }
}

fn slice_vec(s: &[u8]) -> (r: Vec<u8>)
    ensures
        r@ == s@,
{
    let mut out: Vec<u8> = Vec::new();
    out.extend_from_slice(s);
    assert(out@ =~= s@);
    out
}

proof fn lemma_boundary_bounds(buffer: Seq<u8>, i: int)
    requires
        0 <= i,
    ensures
        match boundary_from(buffer, i) {
            Some((start, end)) => i <= start < end <= buffer.len() && boundary_at(buffer, start)
                == Some(end),
            None => true,
        },
    decreases buffer.len() - i,
{
    if i < buffer.len() && boundary_at(buffer, i) is None {
        lemma_boundary_bounds(buffer, i + 1);
    }
}

proof fn lemma_boundary_stays(a: Seq<u8>, b: Seq<u8>, i: int)
    requires
        0 <= i,
        boundary_from(a, i) is Some,
    ensures
        boundary_from(a + b, i) == boundary_from(a, i),
    decreases a.len() - i,
{
    let whole = a + b;
    lemma_boundary_bounds(a, i);
    if boundary_at(a, i) is Some {
        assert(boundary_at(whole, i) == boundary_at(a, i));
    } else {
        lemma_boundary_bounds(a, i + 1);
        lemma_boundary_stays(a, b, i + 1);
        let next = boundary_from(a, i + 1)->0;
        assert(next.0 >= i + 1 && next.0 + 2 <= a.len());
        assert(boundary_at(whole, i) is None) by {
            assert(whole[i] == a[i] && whole[i + 1] == a[i + 1]);
            if boundary_at(whole, i) is Some {
                assert(whole[i + 2] == a[i + 2]);
                if i + 4 <= a.len() {
                    assert(whole[i + 3] == a[i + 3]);
                } else {
                    assert(next.0 == i + 1);
                }
            }
        }
    }
}

/// No event of some bytes is too long.
pub open spec fn within_bounds(buffer: Seq<u8>) -> bool {
    !framed(buffer).0.contains(FrameView::TooLong)
}

/// How a stream is cut into pieces does not matter: as long as no event is too
/// long, the events of the pieces are those of the whole, also where the empty line
/// between two events is cut.
pub proof fn law_events_do_not_depend_on_pieces(a: Seq<u8>, b: Seq<u8>)
    requires
        within_bounds(a),
    ensures
        framed(a + b).0 == framed(a).0 + framed(framed(a).1 + b).0,
        framed(a + b).1 == framed(framed(a).1 + b).1,
    decreases a.len(),
{
    lemma_boundary_bounds(a, 0);
    match boundary(a) {
        None => {
            if a.len() > MAX_PRIVATE_RESPONSE_BYTES {
                assert(framed(a).0[0] == FrameView::TooLong);
                assert(framed(a).0.contains(FrameView::TooLong));
            }
            assert(framed(a).0 + framed(a + b).0 =~= framed(a + b).0);
        },
        Some((start, end)) => {
            if end > MAX_PRIVATE_RESPONSE_BYTES {
                assert(framed(a).0[0] == FrameView::TooLong);
                assert(framed(a).0.contains(FrameView::TooLong));
            }
            lemma_boundary_stays(a, b, 0);
            let rest = a.skip(end);
            let first = seq![FrameView::Event(a.take(start))];
            assert((a + b).skip(end) =~= rest + b);
            assert((a + b).take(start) =~= a.take(start));
            assert(within_bounds(rest)) by {
                if framed(rest).0.contains(FrameView::TooLong) {
                    let k = choose|k: int|
                        0 <= k < framed(rest).0.len() && framed(rest).0[k] == FrameView::TooLong;
                    assert(framed(a).0[k + 1] == FrameView::TooLong);
                    assert(framed(a).0.contains(FrameView::TooLong));
                }
            }
            law_events_do_not_depend_on_pieces(rest, b);
            assert(first + (framed(rest).0 + framed(framed(rest).1 + b).0) =~= (first
                + framed(rest).0) + framed(framed(rest).1 + b).0);
        },
    }
}

/// Every event that is handed out is within the limit, and so is what is kept for
/// the next.
pub proof fn law_events_are_bounded(buffer: Seq<u8>, i: int)
    requires
        0 <= i < framed(buffer).0.len(),
    ensures
        match framed(buffer).0[i] {
            FrameView::Event(bytes) => bytes.len() <= MAX_PRIVATE_RESPONSE_BYTES,
            FrameView::TooLong => i == framed(buffer).0.len() - 1,
        },
        framed(buffer).1.len() <= MAX_PRIVATE_RESPONSE_BYTES,
    decreases buffer.len(),
{
    lemma_boundary_bounds(buffer, 0);
    match boundary(buffer) {
        None => {},
        Some((start, end)) => {
            if end <= MAX_PRIVATE_RESPONSE_BYTES {
                let rest = buffer.skip(end);
                lemma_framed_rest_bounded(rest);
                if i > 0 {
                    law_events_are_bounded(rest, i - 1);
                } else if framed(rest).0.len() > 0 {
                    law_events_are_bounded(rest, 0);
                }
            }
        },
    }
}

proof fn lemma_framed_rest_bounded(buffer: Seq<u8>)
    ensures
        framed(buffer).1.len() <= MAX_PRIVATE_RESPONSE_BYTES,
    decreases buffer.len(),
{
    lemma_boundary_bounds(buffer, 0);
    match boundary(buffer) {
        None => {},
        Some((start, end)) => {
            if end <= MAX_PRIVATE_RESPONSE_BYTES {
                lemma_framed_rest_bounded(buffer.skip(end));
            }
        },
    }
}

/// A line ends at its first line feed: no byte before it is one, and the bytes up to it are
/// taken from the input, with it.
pub proof fn law_lines_end_at_the_first_line_feed(bytes: Seq<u8>, n: int)
    requires
        0 <= n < bytes.len(),
        bytes[n] == 0x0a,
        forall|i: int| 0 <= i < n ==> #[trigger] bytes[i] != 0x0a,
    ensures
        ends_line(bytes),
        line_end(bytes) == n,
        taken(bytes) == n + 1,
    decreases n,
{
    if n > 0 {
        assert(bytes[0] != 0x0a);
        assert forall|i: int| 0 <= i < n - 1 implies #[trigger] bytes.skip(1)[i] != 0x0a by {
            assert(bytes.skip(1)[i] == bytes[i + 1]);
        }
        law_lines_end_at_the_first_line_feed(bytes.skip(1), n - 1);
    }
}

/// Bytes without a line feed are taken whole and end no line.
pub proof fn law_unended_lines_are_taken_whole(bytes: Seq<u8>)
    requires
        forall|i: int| 0 <= i < bytes.len() ==> #[trigger] bytes[i] != 0x0a,
    ensures
        !ends_line(bytes),
        taken(bytes) == bytes.len(),
        line_end(bytes) == bytes.len(),
    decreases bytes.len(),
{
    if bytes.len() > 0 {
        assert(bytes[0] != 0x0a);
        assert forall|i: int| 0 <= i < bytes.skip(1).len() implies #[trigger] bytes.skip(1)[i]
            != 0x0a by {
            assert(bytes.skip(1)[i] == bytes[i + 1]);
        }
        law_unended_lines_are_taken_whole(bytes.skip(1));
    }
}

/// A line is the bytes before its line feed, without one carriage return at their end; it
/// is handed on just when these are at most 524288 bytes, and else told to be too long. At
/// the end of the input a line is handed on as it is, unless it is empty.
pub proof fn law_lines_are_handed_on_within_the_limit(bytes: Seq<u8>, n: int)
    requires
        0 <= n < bytes.len(),
        bytes[n] == 0x0a,
        forall|i: int| 0 <= i < n ==> #[trigger] bytes[i] != 0x0a,
    ensures
        ({
            let line = fed(PartialLine::Within(Seq::empty()), bytes);
            &&& n > 524_288 ==> ended(line) is Oversized && ended_input(line) is Oversized
            &&& n <= 524_288 ==> ended(line) == LineView::Line(
                if n > 0 && bytes[n - 1] == 0x0d {
                    bytes.take(n - 1)
                } else {
                    bytes.take(n)
                },
            )
            &&& 0 < n <= 524_288 ==> ended_input(line) == LineView::Line(bytes.take(n))
            &&& n == 0 ==> ended_input(line) is Eof
        }),
        ended(PartialLine::Oversized) is Oversized,
        extended(PartialLine::Oversized, bytes) is Oversized,
{
    law_lines_end_at_the_first_line_feed(bytes, n);
    let start = Seq::<u8>::empty();
    assert(start + bytes.take(n) =~= bytes.take(n));
    assert(n > 0 ==> bytes.take(n).drop_last() =~= bytes.take(n - 1));
}

/// An event ends at the first empty line: two line feeds, two carriage returns, or two of
/// both; the next one starts right after it, and no such place comes before.
pub proof fn law_events_end_at_the_first_empty_line(buffer: Seq<u8>, i: int)
    ensures
        boundary(buffer) is Some ==> ({
            let (start, end) = boundary(buffer)->0;
            &&& 0 <= start < end <= buffer.len()
            &&& buffer.subrange(start, end) == seq![0x0au8, 0x0au8] || buffer.subrange(start, end)
                == seq![0x0du8, 0x0du8] || buffer.subrange(start, end) == seq![
                0x0du8,
                0x0au8,
                0x0du8,
                0x0au8,
            ]
            &&& 0 <= i < start ==> boundary_at(buffer, i) is None
        }),
        0 <= i && i + 2 <= buffer.len() && (buffer.subrange(i, i + 2) == seq![0x0au8, 0x0au8]
            || buffer.subrange(i, i + 2) == seq![0x0du8, 0x0du8]) ==> boundary(buffer) is Some && (
        boundary(buffer)->0).0 <= i,
        0 <= i && i + 4 <= buffer.len() && buffer.subrange(i, i + 4) == seq![
            0x0du8,
            0x0au8,
            0x0du8,
            0x0au8,
        ] ==> boundary(buffer) is Some && (boundary(buffer)->0).0 <= i,
{
    lemma_first_boundary(buffer, 0, i);
    if boundary(buffer) is Some {
        let (start, end) = boundary(buffer)->0;
        if end == start + 2 {
            assert(buffer.subrange(start, end) =~= seq![buffer[start], buffer[start + 1]]);
        } else {
            assert(buffer.subrange(start, end) =~= seq![0x0du8, 0x0au8, 0x0du8, 0x0au8]);
        }
    }
    if 0 <= i && i + 2 <= buffer.len() {
        assert(buffer.subrange(i, i + 2) =~= seq![buffer[i], buffer[i + 1]]);
        assert(buffer.subrange(i, i + 2)[0] == buffer[i]);
        assert(buffer.subrange(i, i + 2)[1] == buffer[i + 1]);
    }
    if 0 <= i && i + 4 <= buffer.len() {
        let s = buffer.subrange(i, i + 4);
        assert(s[0] == buffer[i] && s[1] == buffer[i + 1] && s[2] == buffer[i + 2] && s[3]
            == buffer[i + 3]);
    }
}

proof fn lemma_first_boundary(buffer: Seq<u8>, from: int, i: int)
    requires
        0 <= from,
    ensures
        boundary_from(buffer, from) is Some ==> ({
            let (start, end) = boundary_from(buffer, from)->0;
            &&& from <= start < buffer.len()
            &&& boundary_at(buffer, start) == Some(end)
            &&& from <= i < start ==> boundary_at(buffer, i) is None
        }),
        from <= i < buffer.len() && boundary_at(buffer, i) is Some ==> boundary_from(buffer, from)
            is Some && (boundary_from(buffer, from)->0).0 <= i,
    decreases buffer.len() - from,
{
    if from < buffer.len() && boundary_at(buffer, from) is None {
        lemma_first_boundary(buffer, from + 1, i);
    }
}

/// The first event of a buffer is what stands before its first empty line, and the events
/// after it are those of the rest; without an empty line all is kept for later, up to the
/// limit.
pub proof fn law_events_are_what_stands_before_the_empty_line(buffer: Seq<u8>)
    ensures
        boundary(buffer) is None && buffer.len() <= 1_048_576 ==> framed(buffer) == (
            Seq::<FrameView>::empty(),
            buffer,
        ),
        boundary(buffer) is None && buffer.len() > 1_048_576 ==> framed(buffer).0
            == seq![FrameView::TooLong],
        boundary(buffer) is Some && (boundary(buffer)->0).1 <= 1_048_576 ==> framed(buffer).0.len()
            > 0 && framed(buffer).0[0] == FrameView::Event(
            buffer.take((boundary(buffer)->0).0),
        ) && framed(buffer).0.skip(1) == framed(buffer.skip((boundary(buffer)->0).1)).0 && framed(
            buffer,
        ).1 == framed(buffer.skip((boundary(buffer)->0).1)).1,
        boundary(buffer) is Some && (boundary(buffer)->0).1 > 1_048_576 ==> framed(buffer).0
            == seq![FrameView::TooLong],
{
    law_events_end_at_the_first_empty_line(buffer, 0);
    if boundary(buffer) is Some && (boundary(buffer)->0).1 <= 1_048_576 {
        let rest = framed(buffer.skip((boundary(buffer)->0).1));
        assert(framed(buffer).0.skip(1) =~= rest.0);
    }
}

/// A line that is being read is never longer than the limit, and nothing is kept of one that
/// is too long.
pub proof fn law_partial_lines_are_bounded(reader: LineReader)
    requires
        reader.ok(),
    ensures
        reader.line@.len() <= 524_288,
        reader.oversized ==> reader.line@.len() == 0,
{
}

} // verus!
