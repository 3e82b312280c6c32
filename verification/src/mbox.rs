//! Splitting an mbox archive into its messages.
//!
//! In the mbox format every line that starts with `From ` marks the start of
//! a message. The lines between two markers, each with its line feed, make up
//! one message; the marker lines themselves belong to no message, and no
//! empty message is ever produced.

use vstd::prelude::*;

verus! {

/// The bytes of `From ` (with the trailing space), which start a marker line.
pub open spec fn from_marker() -> Seq<u8> {
    seq![70u8, 114u8, 111u8, 109u8, 32u8]
}

/// A line that separates two messages: one starting with `From `.
pub open spec fn is_separator(line: Seq<u8>) -> bool {
    line.len() >= 5 && line.take(5) == from_marker()
}

/// The messages found so far and the lines gathered for the next one.
pub struct SplitState {
    pub messages: Seq<Seq<u8>>,
    pub current: Seq<u8>,
}

/// The state before any line was seen.
pub open spec fn split_start() -> SplitState {
    SplitState { messages: Seq::empty(), current: Seq::empty() }
}

/// One line more: a marker closes the message gathered so far, if any, and is
/// dropped; any other line is added to it with its line feed.
pub open spec fn split_step(st: SplitState, line: Seq<u8>) -> SplitState {
    if is_separator(line) {
        if st.current.len() > 0 {
            SplitState { messages: st.messages.push(st.current), current: Seq::empty() }
        } else {
            st
        }
    } else {
        SplitState { messages: st.messages, current: st.current + line.push(10u8) }
    }
}

/// The state after the lines `lines`, in order.
pub open spec fn split_feed(lines: Seq<Seq<u8>>) -> SplitState
    decreases lines.len(),
{
    if lines.len() == 0 {
        split_start()
    } else {
        split_step(split_feed(lines.drop_last()), lines.last())
    }
}

/// The messages of a state once the input has ended: the last message is
/// the one still being gathered, if it holds anything.
pub open spec fn split_finish(st: SplitState) -> Seq<Seq<u8>> {
    if st.current.len() > 0 {
        st.messages.push(st.current)
    } else {
        st.messages
    }
}

/// The messages of an archive given by its lines.
pub open spec fn mbox_messages(lines: Seq<Seq<u8>>) -> Seq<Seq<u8>> {
    split_finish(split_feed(lines))
}

/// Scanning bytes for line feeds: the complete lines so far (without their
/// line feeds) and the bytes of the line not yet ended.
pub open spec fn line_scan(data: Seq<u8>) -> (Seq<Seq<u8>>, Seq<u8>)
    decreases data.len(),
{
    if data.len() == 0 {
        (Seq::empty(), Seq::empty())
    } else {
        let (lines, partial) = line_scan(data.drop_last());
        if data.last() == 10u8 {
            (lines.push(partial), Seq::empty())
        } else {
            (lines, partial.push(data.last()))
        }
    }
}

/// The lines of `data`, split at each line feed, which is dropped; a last
/// line without a line feed counts when it is not empty (how std's
/// `BufRead::split(b'\n')` cuts a stream).
pub open spec fn split_lines(data: Seq<u8>) -> Seq<Seq<u8>> {
    let (lines, partial) = line_scan(data);
    if partial.len() > 0 {
        lines.push(partial)
    } else {
        lines
    }
}

/// The raw bytes of one message of the archive.
#[derive(Debug)]
pub struct RawMessage {
    pub bytes: Vec<u8>,
}

impl View for RawMessage {
    type V = Seq<u8>;

    open spec fn view(&self) -> Seq<u8> {
        self.bytes@
    }
}

/// The bytes of each message, in order.
pub open spec fn messages_view(ms: Seq<RawMessage>) -> Seq<Seq<u8>> {
    ms.map_values(|m: RawMessage| m@)
}

/// Splits an archive fed to it line by line, so that a large archive need
/// not be held in memory at once.
pub struct MboxSplitter {
    messages: Vec<RawMessage>,
    current: Vec<u8>,
}

impl View for MboxSplitter {
    type V = SplitState;

    closed spec fn view(&self) -> SplitState {
        SplitState { messages: messages_view(self.messages@), current: self.current@ }
    }
}

/// Does `line` start with `From `?
fn starts_with_from(line: &[u8]) -> (r: bool)
    ensures
        r == is_separator(line@),
{
    let r = line.len() >= 5 && line[0] == 70u8 && line[1] == 114u8 && line[2] == 111u8
        && line[3] == 109u8 && line[4] == 32u8;
    if line.len() >= 5 {
        assert(r == (line@.take(5) =~= from_marker()));
    }
    r
}

impl MboxSplitter {
    /// A splitter that has seen no line.
    pub fn new() -> (r: Self)
        ensures
            r@ == split_start(),
    {
        let r = MboxSplitter { messages: Vec::new(), current: Vec::new() };
        assert(r@.messages =~= Seq::<Seq<u8>>::empty());
        r
    }

    /// Feeds one line, without its line feed.
    pub fn push_line(&mut self, line: &[u8])
        ensures
            final(self)@ == split_step(old(self)@, line@),
    {
        if starts_with_from(line) {
            if self.current.len() > 0 {
                let mut bytes: Vec<u8> = Vec::new();
                std::mem::swap(&mut bytes, &mut self.current);
                self.messages.push(RawMessage { bytes });
                assert(final(self)@.messages =~= old(self)@.messages.push(old(self)@.current));
            }
        } else {
            let mut i: usize = 0;
            while i < line.len()
                invariant
                    i <= line@.len(),
                    self.current@ == old(self).current@ + line@.take(i as int),
                    self.messages == old(self).messages,
                decreases line@.len() - i,
            {
                self.current.push(line[i]);
                assert(line@.take(i + 1) =~= line@.take(i as int).push(line@[i as int]));
                i = i + 1;
            }
            self.current.push(10u8);
            assert(line@.take(i as int) =~= line@);
            assert(final(self)@.current =~= old(self)@.current + line@.push(10u8));
        }
    }

    /// The messages, once every line was fed.
    pub fn finish(self) -> (r: Vec<RawMessage>)
        ensures
            messages_view(r@) == split_finish(self@),
    {
        let mut messages = self.messages;
        if self.current.len() > 0 {
            messages.push(RawMessage { bytes: self.current });
            assert(messages_view(messages@) =~= split_finish(self@));
        }
        messages
    }
}

/// Splits the bytes of a whole archive into its messages: the bytes are cut
/// into lines as [`split_lines`] says, and the lines are split into messages
/// as [`mbox_messages`] says.
pub fn split_mbox(data: &[u8]) -> (r: Vec<RawMessage>)
    ensures
        messages_view(r@) == mbox_messages(split_lines(data@)),
{
    let mut splitter = MboxSplitter::new();
    let mut line: Vec<u8> = Vec::new();
    let mut i: usize = 0;
    assert(data@.take(0) =~= Seq::<u8>::empty());
    while i < data.len()
        invariant
            i <= data@.len(),
            splitter@ == split_feed(line_scan(data@.take(i as int)).0),
            line@ == line_scan(data@.take(i as int)).1,
        decreases data@.len() - i,
    {
        let ghost prefix = data@.take(i + 1);
        assert(prefix.drop_last() =~= data@.take(i as int));
        if data[i] == 10u8 {
            let ghost lines = line_scan(data@.take(i as int)).0;
            assert(lines.push(line@).drop_last() =~= lines);
            splitter.push_line(line.as_slice());
            line = Vec::new();
        } else {
            line.push(data[i]);
        }
        i = i + 1;
    }
    assert(data@.take(i as int) =~= data@);
    if line.len() > 0 {
        let ghost lines = line_scan(data@).0;
        assert(lines.push(line@).drop_last() =~= lines);
        splitter.push_line(line.as_slice());
    }
    splitter.finish()
}


/// The first five bytes of `line` are `F`, `r`, `o`, `m` and a space.
pub open spec fn begins_with_from_space(line: Seq<u8>) -> bool {
    line.len() >= 5 && line[0] == 70u8 && line[1] == 114u8 && line[2] == 111u8 && line[3] == 109u8
        && line[4] == 32u8
}

/// A line starts a new message exactly when its first five bytes are
/// `F`, `r`, `o`, `m` and a space: such a line ends the message gathered so
/// far (if any) and is dropped, and any other line (one starting with
/// `>From `, `From:` or any byte but `F`) is added with its line feed to the
/// message being gathered.
pub proof fn lemma_marker_lines_exactly(st: SplitState, line: Seq<u8>)
    ensures
        begins_with_from_space(line) && st.current.len() > 0 ==> split_step(st, line) == (SplitState {
            messages: st.messages.push(st.current),
            current: Seq::empty(),
        }),
        begins_with_from_space(line) && st.current.len() == 0 ==> split_step(st, line) == st,
        !begins_with_from_space(line) ==> split_step(st, line) == (SplitState {
            messages: st.messages,
            current: st.current + line.push(10u8),
        }),
{
    if line.len() >= 5 {
        if begins_with_from_space(line) {
            assert(line.take(5) =~= from_marker());
        } else {
            assert(line.take(5)[0] == line[0] && line.take(5)[1] == line[1] && line.take(5)[2] == line[2]
                && line.take(5)[3] == line[3] && line.take(5)[4] == line[4]);
        }
    }
}

/// An archive none of whose lines starts with `From ` is one message: all
/// its lines, each with its line feed (none at all when there are no lines).
pub proof fn lemma_no_marker_one_message(lines: Seq<Seq<u8>>)
    requires
        lines.len() > 0,
        forall|i: int| 0 <= i < lines.len() ==> !begins_with_from_space(#[trigger] lines[i]),
    ensures
        mbox_messages(lines) == seq![lines.map_values(|l: Seq<u8>| l.push(10u8)).flatten()],
{
    lemma_no_marker_feed(lines);
    let st = split_feed(lines);
    assert(st.current.len() >= lines.last().push(10u8).len()) by {
        lemma_no_marker_feed(lines.drop_last());
        lemma_marker_lines_exactly(split_feed(lines.drop_last()), lines.last());
    }
    assert(mbox_messages(lines) =~= seq![st.current]);
}

proof fn lemma_no_marker_feed(lines: Seq<Seq<u8>>)
    requires
        forall|i: int| 0 <= i < lines.len() ==> !begins_with_from_space(#[trigger] lines[i]),
    ensures
        split_feed(lines).messages == Seq::<Seq<u8>>::empty(),
        split_feed(lines).current == lines.map_values(|l: Seq<u8>| l.push(10u8)).flatten(),
    decreases lines.len(),
{
    if lines.len() > 0 {
        let prev = lines.drop_last();
        assert forall|i: int| 0 <= i < prev.len() implies !begins_with_from_space(#[trigger] prev[i]) by {
            assert(prev[i] == lines[i]);
        }
        lemma_no_marker_feed(prev);
        assert(lines.last() == lines[lines.len() - 1]);
        lemma_marker_lines_exactly(split_feed(prev), lines.last());
        let f = |l: Seq<u8>| l.push(10u8);
        assert(lines.map_values(f) =~= prev.map_values(f).push(lines.last().push(10u8)));
        prev.map_values(f).lemma_flatten_push(lines.last().push(10u8));
    }
}

/// The bytes of an archive that belong to some message: every line that is
/// not a marker, with its line feed, in order.
pub open spec fn kept_text(lines: Seq<Seq<u8>>) -> Seq<u8>
    decreases lines.len(),
{
    if lines.len() == 0 {
        Seq::empty()
    } else if is_separator(lines.last()) {
        kept_text(lines.drop_last())
    } else {
        kept_text(lines.drop_last()) + lines.last().push(10u8)
    }
}

proof fn lemma_feed_invariant(lines: Seq<Seq<u8>>)
    ensures
        forall|i: int|
            0 <= i < split_feed(lines).messages.len() ==> #[trigger] split_feed(lines).messages[i].len() > 0,
        split_feed(lines).messages.flatten() + split_feed(lines).current == kept_text(lines),
    decreases lines.len(),
{
    if lines.len() > 0 {
        let prev = lines.drop_last();
        lemma_feed_invariant(prev);
        let st = split_feed(prev);
        let l = lines.last();
        if is_separator(l) {
            if st.current.len() > 0 {
                st.messages.lemma_flatten_push(st.current);
                assert(st.messages.push(st.current).flatten() + Seq::<u8>::empty() =~= st.messages.flatten() + st.current);
            }
        } else {
            assert(st.messages.flatten() + (st.current + l.push(10u8)) =~= (st.messages.flatten() + st.current) + l.push(10u8));
        }
    }
}

/// No message of an archive is empty.
pub proof fn lemma_messages_nonempty(lines: Seq<Seq<u8>>)
    ensures
        forall|i: int|
            0 <= i < mbox_messages(lines).len() ==> #[trigger] mbox_messages(lines)[i].len() > 0,
{
    lemma_feed_invariant(lines);
}

/// Splitting loses and adds nothing: the messages, put back together in
/// order, are exactly the non-marker lines of the archive, each with its
/// line feed.
pub proof fn lemma_messages_keep_all_text(lines: Seq<Seq<u8>>)
    ensures
        mbox_messages(lines).flatten() == kept_text(lines),
{
    lemma_feed_invariant(lines);
    let st = split_feed(lines);
    if st.current.len() > 0 {
        st.messages.lemma_flatten_push(st.current);
    } else {
        assert(st.messages.flatten() + st.current =~= st.messages.flatten());
    }
}

/// Each line with its line feed put back.
pub open spec fn with_line_feeds(lines: Seq<Seq<u8>>) -> Seq<Seq<u8>> {
    lines.map_values(|l: Seq<u8>| l.push(10u8))
}

proof fn lemma_scan_invariant(data: Seq<u8>)
    ensures
        with_line_feeds(line_scan(data).0).flatten() + line_scan(data).1 == data,
        !line_scan(data).1.contains(10u8),
        forall|i: int| 0 <= i < line_scan(data).0.len() ==> !(#[trigger] line_scan(data).0[i]).contains(10u8),
    decreases data.len(),
{
    if data.len() > 0 {
        let prev = data.drop_last();
        lemma_scan_invariant(prev);
        let (lines, partial) = line_scan(prev);
        let flat = with_line_feeds(lines).flatten();
        assert(data =~= prev.push(data.last()));
        assert(flat + partial.push(data.last()) =~= (flat + partial).push(data.last()));
        if data.last() == 10u8 {
            assert(with_line_feeds(lines.push(partial)) =~= with_line_feeds(lines).push(partial.push(10u8)));
            with_line_feeds(lines).lemma_flatten_push(partial.push(10u8));
            assert(with_line_feeds(lines.push(partial)).flatten() + Seq::<u8>::empty() =~= data);
            assert(!Seq::<u8>::empty().contains(10u8));
        } else {
            assert(with_line_feeds(lines).flatten() + partial.push(data.last()) =~= data);
            assert forall|j: int| 0 <= j < partial.push(data.last()).len() implies partial.push(data.last())[j] != 10u8 by {
                if j < partial.len() {
                    assert(partial[j] != 10u8);
                }
            }
        }
    }
}

/// Cutting bytes into lines loses nothing: the lines hold no line feed, and
/// with a line feed after each of them they give back the bytes, which gain
/// a final line feed when they did not end with one.
pub proof fn lemma_lines_rejoin(data: Seq<u8>)
    ensures
        forall|i: int| 0 <= i < split_lines(data).len() ==> !(#[trigger] split_lines(data)[i]).contains(10u8),
        with_line_feeds(split_lines(data)).flatten() == (if data.len() == 0 || data.last() == 10u8 {
            data
        } else {
            data.push(10u8)
        }),
{
    lemma_scan_invariant(data);
    let (lines, partial) = line_scan(data);
    if partial.len() > 0 {
        assert(with_line_feeds(lines.push(partial)) =~= with_line_feeds(lines).push(partial.push(10u8)));
        with_line_feeds(lines).lemma_flatten_push(partial.push(10u8));
        assert(data.last() == partial.last());
        assert(with_line_feeds(split_lines(data)).flatten() =~= data.push(10u8));
    } else {
        assert(with_line_feeds(lines).flatten() + partial =~= with_line_feeds(lines).flatten());
        if data.len() > 0 {
            assert(data.last() == 10u8);
        }
    }
}

} // verus!
