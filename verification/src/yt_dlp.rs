//! Reading the output of one run of the external tool.
//!
//! The tool writes lines of text. One line announces the file that it
//! writes; after it, frames of progress follow, each ended by a carriage
//! return and each holding a percentage in front of a percent sign. The
//! first frame without a percent sign ends the run.

use vstd::prelude::*;
use vstd::string::StrSliceExecFns;
use crate::decode::{decode_lossy, utf8_lossy};
use crate::download::{
    message_views,
    DownloadError,
    DownloadErrorView,
    DownloaderMessage,
    DownloaderMessageView,
};
use crate::line_reader::{after_first, LineReader};
use crate::percent::{is_numeral, Percent};
use crate::text::{
    after_last,
    before_first,
    contains_run,
    find_first,
    find_last,
    find_last_before,
    first_index,
    lemma_first_index,
    lemma_first_index_is,
    lemma_last_index_is,
    occurs_in,
    to_chars,
};

verus! {

/// What the reader of one run waits for.
#[derive(Debug, Clone, Copy, PartialEq, Eq, Structural)]
pub enum ReaderState {
    /// No line has announced the file yet.
    WaitingForName,
    /// The file was announced; the frame that follows is stale and is
    /// passed over.
    SkippingFrame,
    /// Frames of progress are read.
    WaitingForProgress,
    /// The run is over; nothing more is read.
    Finished,
}

/// The word by which a line announces the file.
pub open spec fn marker() -> Seq<char> {
    "Destination"@
}

/// The name of the file that `segment` announces: what follows its last `/`.
pub open spec fn name_in(segment: Seq<char>) -> Seq<char> {
    after_last(segment, '/')
}

/// What stands in `segment` in front of its first percent sign, from the
/// last space on.
pub open spec fn token_in(segment: Seq<char>) -> Seq<char> {
    after_last(before_first(segment, '%'), ' ')
}

/// The byte that ends the segments read in `state`: a line feed while the
/// announcement is awaited, a carriage return after it.
pub open spec fn delimiter(state: ReaderState) -> Option<u8> {
    match state {
        ReaderState::WaitingForName => Some(10u8),
        ReaderState::SkippingFrame => Some(13u8),
        ReaderState::WaitingForProgress => Some(13u8),
        ReaderState::Finished => None,
    }
}

/// The state after a segment, and the message that the segment gave rise to.
pub struct Step {
    pub state: ReaderState,
    pub message: Option<DownloaderMessageView>,
}

/// What reading `segment` in `state` leads to.
pub open spec fn step(state: ReaderState, segment: Seq<char>) -> Step {
    match state {
        ReaderState::WaitingForName => {
            if occurs_in(segment, marker()) {
                Step {
                    state: ReaderState::SkippingFrame,
                    message: Some(DownloaderMessageView::NameObtained(name_in(segment))),
                }
            } else {
                Step { state: ReaderState::WaitingForName, message: None }
            }
        },
        ReaderState::SkippingFrame => Step {
            state: ReaderState::WaitingForProgress,
            message: None,
        },
        ReaderState::WaitingForProgress => {
            if !segment.contains('%') {
                Step {
                    state: ReaderState::Finished,
                    message: Some(DownloaderMessageView::DownloadFinished),
                }
            } else if is_numeral(token_in(segment)) {
                Step {
                    state: ReaderState::WaitingForProgress,
                    message: Some(DownloaderMessageView::DownloadProgressed(token_in(segment))),
                }
            } else {
                Step {
                    state: ReaderState::Finished,
                    message: Some(
                        DownloaderMessageView::DownloadFailed(
                            DownloadErrorView::BadPercentage(token_in(segment)),
                        ),
                    ),
                }
            }
        },
        ReaderState::Finished => Step { state: ReaderState::Finished, message: None },
    }
}

/// The messages of a step, as a sequence of none or one.
pub open spec fn said(message: Option<DownloaderMessageView>) -> Seq<DownloaderMessageView> {
    match message {
        Some(message) => seq![message],
        None => Seq::empty(),
    }
}

/// Where a reader stands after some input, and what it said on the way.
pub struct Outcome {
    pub state: ReaderState,
    pub messages: Seq<DownloaderMessageView>,
}

/// What reading `segments` in turn, beginning in `state`, leads to.
pub open spec fn run(state: ReaderState, segments: Seq<Seq<char>>) -> Outcome
    decreases segments.len(),
{
    if segments.len() == 0 {
        Outcome { state, messages: Seq::empty() }
    } else {
        let first = step(state, segments[0]);
        let rest = run(first.state, segments.drop_first());
        Outcome { state: rest.state, messages: said(first.message) + rest.messages }
    }
}

/// The view of an optional message.
pub open spec fn message_view(message: Option<DownloaderMessage>) -> Option<
    DownloaderMessageView,
> {
    match message {
        Some(message) => Some(message@),
        None => None,
    }
}

/// The name of the file that `segment` announces.
pub fn file_name(segment: &str) -> (name: String)
    ensures
        name@ == name_in(segment@),
{
    let chars = to_chars(segment);
    let len: usize = chars.len();
    let from: usize = match find_last(&chars, '/') {
        Some(i) => i + 1,
        None => 0,
    };
    segment.substring_char(from, len).to_owned()
}

/// What stands in `segment` in front of its first percent sign, from the
/// last space on; `None` where `segment` holds no percent sign.
pub fn progress_token(segment: &str) -> (token: Option<String>)
    ensures
        token is Some <==> segment@.contains('%'),
        token matches Some(t) ==> t@ == token_in(segment@),
{
    let chars = to_chars(segment);
    proof {
        lemma_first_index(chars@, '%');
    }
    match find_first(&chars, '%') {
        None => None,
        Some(sign) => {
            let from: usize = match find_last_before(&chars, ' ', sign) {
                Some(i) => i + 1,
                None => 0,
            };
            assert(chars@.take(sign as int).skip(from as int) =~= chars@.subrange(
                from as int,
                sign as int,
            ));
            Some(segment.substring_char(from, sign).to_owned())
        },
    }
}

/// Reads `segment` in `state`: gives the state that follows and the message
/// that the segment gives rise to.
pub fn read_segment(state: ReaderState, segment: &str) -> (r: (
    ReaderState,
    Option<DownloaderMessage>,
))
    ensures
        r.0 == step(state, segment@).state,
        message_view(r.1) == step(state, segment@).message,
{
    match state {
        ReaderState::WaitingForName => {
            let chars = to_chars(segment);
            let word = to_chars("Destination");
            if contains_run(&chars, &word) {
                let name = file_name(segment);
                (ReaderState::SkippingFrame, Some(DownloaderMessage::NameObtained(name)))
            } else {
                (ReaderState::WaitingForName, None)
            }
        },
        ReaderState::SkippingFrame => (ReaderState::WaitingForProgress, None),
        ReaderState::WaitingForProgress => {
            match progress_token(segment) {
                None => (ReaderState::Finished, Some(DownloaderMessage::DownloadFinished)),
                Some(token) => {
                    match Percent::parse(token.as_str()) {
                        Some(percent) => (
                            ReaderState::WaitingForProgress,
                            Some(DownloaderMessage::DownloadProgressed(percent)),
                        ),
                        None => (
                            ReaderState::Finished,
                            Some(
                                DownloaderMessage::DownloadFailed(
                                    DownloadError::BadPercentage(token),
                                ),
                            ),
                        ),
                    }
                },
            }
        },
        ReaderState::Finished => (ReaderState::Finished, None),
    }
}

/// Where a reader that is fed bytes stands: its state, the bytes that it
/// holds back because no delimiter has ended them, and what it said.
pub struct Drained {
    pub state: ReaderState,
    pub pending: Seq<u8>,
    pub messages: Seq<DownloaderMessageView>,
}

/// What a reader in `state` makes of the bytes `pending`: it cuts off each
/// segment that the delimiter of its state ends, decodes it and reads it,
/// until no delimiter is left. A finished reader drops what it is given.
pub open spec fn drain(state: ReaderState, pending: Seq<u8>) -> Drained
    decreases pending.len(),
{
    match delimiter(state) {
        None => Drained { state, pending: Seq::empty(), messages: Seq::empty() },
        Some(d) => {
            if pending.contains(d) {
                proof {
                    lemma_first_index(pending, d);
                }
                let first = step(state, utf8_lossy(before_first(pending, d)));
                let rest = drain(first.state, after_first(pending, d));
                Drained {
                    state: rest.state,
                    pending: rest.pending,
                    messages: said(first.message) + rest.messages,
                }
            } else {
                Drained { state, pending, messages: Seq::empty() }
            }
        },
    }
}

/// What a reader in `state` that holds `pending` says when its stream ends:
/// what the segments that are still whole give rise to, then what the rest
/// behind the last delimiter gives rise to, read as one more segment, and
/// then, unless the run is over by then, that it has finished.
pub open spec fn close(state: ReaderState, pending: Seq<u8>) -> Seq<DownloaderMessageView> {
    let whole = drain(state, pending);
    let last = if whole.pending.len() > 0 {
        step(whole.state, utf8_lossy(whole.pending))
    } else {
        Step { state: whole.state, message: None }
    };
    let end = if last.state is Finished {
        Seq::empty()
    } else {
        seq![DownloaderMessageView::DownloadFinished]
    };
    whole.messages + said(last.message) + end
}

/// The reader of one run of the tool: fed the bytes that the tool writes, it
/// says what they mean for the download.
#[derive(Debug)]
pub struct YtDlp {
    id: u32,
    reader: LineReader,
    reader_state: ReaderState,
}

/// A `YtDlp` as plain values.
pub struct YtDlpView {
    pub id: u32,
    pub pending: Seq<u8>,
    pub state: ReaderState,
}

impl View for YtDlp {
    type V = YtDlpView;

    closed spec fn view(&self) -> YtDlpView {
        YtDlpView { id: self.id, pending: self.reader@, state: self.reader_state }
    }
}

/// The byte that ends the segments read in `state`.
fn delimiter_of(state: ReaderState) -> (d: Option<u8>)
    ensures
        d == delimiter(state),
{
    match state {
        ReaderState::WaitingForName => Some(10u8),
        ReaderState::SkippingFrame => Some(13u8),
        ReaderState::WaitingForProgress => Some(13u8),
        ReaderState::Finished => None,
    }
}

impl YtDlp {
    /// The reader of the run for download `id`, before any output.
    pub fn new(id: u32) -> (r: Self)
        ensures
            r@ == (YtDlpView {
                id,
                pending: Seq::empty(),
                state: ReaderState::WaitingForName,
            }),
    {
        YtDlp { id, reader: LineReader::new(), reader_state: ReaderState::WaitingForName }
    }

    /// The download that the run belongs to.
    pub fn id(&self) -> (r: u32)
        ensures
            r == self@.id,
    {
        self.id
    }

    /// What the reader waits for.
    pub fn state(&self) -> (r: ReaderState)
        ensures
            r == self@.state,
    {
        self.reader_state
    }

    /// Whether the run is over.
    pub fn is_finished(&self) -> (r: bool)
        ensures
            r == (self@.state is Finished),
    {
        match self.reader_state {
            ReaderState::Finished => true,
            _ => false,
        }
    }

    /// Reads one segment of text, as if it had been cut off the stream.
    pub fn read(&mut self, segment: &str) -> (message: Option<DownloaderMessage>)
        ensures
            final(self)@.id == old(self)@.id,
            final(self)@.pending == old(self)@.pending,
            final(self)@.state == step(old(self)@.state, segment@).state,
            message_view(message) == step(old(self)@.state, segment@).message,
    {
        let (state, message) = read_segment(self.reader_state, segment);
        self.reader_state = state;
        message
    }

    /// Takes in the bytes that the tool wrote next, and says what the
    /// segments that they complete give rise to, in order.
    pub fn feed(&mut self, bytes: &[u8]) -> (messages: Vec<DownloaderMessage>)
        ensures
            final(self)@.id == old(self)@.id,
            final(self)@.state == drain(old(self)@.state, old(self)@.pending + bytes@).state,
            final(self)@.pending == drain(old(self)@.state, old(self)@.pending + bytes@).pending,
            message_views(messages@) == drain(
                old(self)@.state,
                old(self)@.pending + bytes@,
            ).messages,
    {
        let ghost goal = drain(old(self)@.state, old(self)@.pending + bytes@);
        let mut messages: Vec<DownloaderMessage> = Vec::new();
        self.reader.feed(bytes);
        assert(message_views(messages@) =~= Seq::empty());
        loop
            invariant
                self.id == old(self).id,
                goal.state == drain(self.reader_state, self.reader@).state,
                goal.pending == drain(self.reader_state, self.reader@).pending,
                goal.messages == message_views(messages@) + drain(
                    self.reader_state,
                    self.reader@,
                ).messages,
            ensures
                self.id == old(self).id,
                goal.state == self.reader_state,
                goal.pending == self.reader@,
                goal.messages == message_views(messages@),
            decreases self.reader@.len(),
        {
            let ghost before = message_views(messages@);
            let ghost pending = self.reader@;
            let ghost state = self.reader_state;
            match delimiter_of(self.reader_state) {
                None => {
                    let _ = self.reader.take_rest();
                    assert(before + Seq::<DownloaderMessageView>::empty() =~= before);
                    break ;
                },
                Some(d) => {
                    match self.reader.next_segment(d) {
                        None => {
                            assert(before + Seq::<DownloaderMessageView>::empty() =~= before);
                            break ;
                        },
                        Some(segment) => {
                            proof {
                                lemma_first_index(pending, d);
                            }
                            let text = decode_lossy(&segment);
                            let (next, message) = read_segment(self.reader_state, text.as_str());
                            self.reader_state = next;
                            match message {
                                Some(message) => {
                                    messages.push(message);
                                    assert(message_views(messages@) =~= before + seq![message@]);
                                },
                                None => {
                                    assert(message_views(messages@) =~= before + Seq::empty());
                                },
                            }
                            let ghost first = step(state, utf8_lossy(before_first(pending, d)));
                            let ghost rest = drain(first.state, after_first(pending, d));
                            assert(message_views(messages@) + rest.messages =~= before + (said(
                                first.message,
                            ) + rest.messages));
                        },
                    }
                },
            }
        }
        messages
    }

    /// Gives the run up: the reader is `Finished` at once, drops what it
    /// holds and says nothing.
    pub fn cancel(&mut self)
        ensures
            final(self)@.id == old(self)@.id,
            final(self)@.state == ReaderState::Finished,
            final(self)@.pending == Seq::<u8>::empty(),
    {
        let _ = self.reader.take_rest();
        self.reader_state = ReaderState::Finished;
    }

    /// Ends the run, as when the tool's output has ended: reads what is
    /// still held, the rest behind the last delimiter as one more segment,
    /// and says that the download has finished unless the run was over
    /// already. The reader is `Finished` afterwards and holds nothing.
    pub fn finish(&mut self) -> (messages: Vec<DownloaderMessage>)
        ensures
            final(self)@.id == old(self)@.id,
            final(self)@.state == ReaderState::Finished,
            final(self)@.pending == Seq::<u8>::empty(),
            message_views(messages@) == close(old(self)@.state, old(self)@.pending),
    {
        let nothing: Vec<u8> = Vec::new();
        assert(old(self)@.pending + nothing@ =~= old(self)@.pending);
        let mut messages = self.feed(nothing.as_slice());
        let ghost whole = message_views(messages@);
        let rest = self.reader.take_rest();
        if rest.len() > 0 {
            let text = decode_lossy(&rest);
            let (next, message) = read_segment(self.reader_state, text.as_str());
            self.reader_state = next;
            match message {
                Some(message) => {
                    messages.push(message);
                    assert(message_views(messages@) =~= whole + seq![message@]);
                },
                None => {
                    assert(message_views(messages@) =~= whole + Seq::empty());
                },
            }
        } else {
            assert(message_views(messages@) =~= whole + Seq::empty());
        }
        let ghost said_so_far = message_views(messages@);
        if !self.is_finished() {
            messages.push(DownloaderMessage::DownloadFinished);
            self.reader_state = ReaderState::Finished;
            assert(message_views(messages@) =~= said_so_far
                + seq![DownloaderMessageView::DownloadFinished]);
        } else {
            assert(message_views(messages@) =~= said_so_far + Seq::empty());
        }
        messages
    }
}

/// A finished reader says nothing and stays finished, whatever it is given.
pub proof fn lemma_finished_reads_nothing(segments: Seq<Seq<char>>)
    ensures
        run(ReaderState::Finished, segments) == (Outcome {
            state: ReaderState::Finished,
            messages: Seq::empty(),
        }),
    decreases segments.len(),
{
    if segments.len() > 0 {
        lemma_finished_reads_nothing(segments.drop_first());
        assert(said(None) + Seq::<DownloaderMessageView>::empty() =~= Seq::empty());
    }
}

/// Reading `head` and then `tail` is reading `head + tail`.
pub proof fn lemma_run_in_two(state: ReaderState, head: Seq<Seq<char>>, tail: Seq<Seq<char>>)
    ensures
        run(state, head + tail).state == run(run(state, head).state, tail).state,
        run(state, head + tail).messages == run(state, head).messages + run(
            run(state, head).state,
            tail,
        ).messages,
    decreases head.len(),
{
    if head.len() == 0 {
        assert(head + tail =~= tail);
        assert(Seq::<DownloaderMessageView>::empty() + run(state, tail).messages =~= run(
            state,
            tail,
        ).messages);
    } else {
        let first = step(state, head[0]);
        assert((head + tail)[0] == head[0]);
        assert((head + tail).drop_first() =~= head.drop_first() + tail);
        lemma_run_in_two(first.state, head.drop_first(), tail);
        let mid = run(first.state, head.drop_first());
        assert(said(first.message) + (mid.messages + run(mid.state, tail).messages) =~= (said(
            first.message,
        ) + mid.messages) + run(mid.state, tail).messages);
    }
}

/// When the first segment announces the file, the first message is the
/// file's name, the segment after it is passed over whatever it holds, and
/// progress is read from the segment after that.
pub proof fn lemma_announcement_comes_first(segments: Seq<Seq<char>>)
    requires
        segments.len() > 0,
        occurs_in(segments[0], marker()),
    ensures
        run(ReaderState::WaitingForName, segments).messages.len() > 0,
        run(ReaderState::WaitingForName, segments).messages[0]
            == DownloaderMessageView::NameObtained(name_in(segments[0])),
        segments.len() == 1 ==> run(ReaderState::WaitingForName, segments) == (Outcome {
            state: ReaderState::SkippingFrame,
            messages: seq![DownloaderMessageView::NameObtained(name_in(segments[0]))],
        }),
        segments.len() >= 2 ==> run(ReaderState::WaitingForName, segments).state == run(
            ReaderState::WaitingForProgress,
            segments.skip(2),
        ).state,
        segments.len() >= 2 ==> run(ReaderState::WaitingForName, segments).messages
            == seq![DownloaderMessageView::NameObtained(name_in(segments[0]))] + run(
            ReaderState::WaitingForProgress,
            segments.skip(2),
        ).messages,
{
    let name = DownloaderMessageView::NameObtained(name_in(segments[0]));
    let rest = segments.drop_first();
    let after = run(ReaderState::SkippingFrame, rest);
    assert(run(ReaderState::WaitingForName, segments).messages == seq![name] + after.messages);
    if segments.len() == 1 {
        assert(seq![name] + after.messages =~= seq![name]);
    } else {
        assert(rest.drop_first() =~= segments.skip(2));
        let progress = run(ReaderState::WaitingForProgress, segments.skip(2));
        assert(after.messages =~= progress.messages);
    }
}

/// While a reader that reads progress has not finished, all that it has
/// said are percentages.
pub proof fn lemma_progress_only(segments: Seq<Seq<char>>)
    requires
        run(ReaderState::WaitingForProgress, segments).state == ReaderState::WaitingForProgress,
    ensures
        forall|i: int|
            0 <= i < run(ReaderState::WaitingForProgress, segments).messages.len() ==> (
            #[trigger] run(ReaderState::WaitingForProgress, segments).messages[i])
                is DownloadProgressed,
    decreases segments.len(),
{
    if segments.len() > 0 {
        let first = step(ReaderState::WaitingForProgress, segments[0]);
        if first.state == ReaderState::Finished {
            lemma_finished_reads_nothing(segments.drop_first());
        } else {
            lemma_progress_only(segments.drop_first());
        }
    }
}

/// The first segment without a percent sign that reaches a reader of
/// progress ends the run: the reader says once that the download has
/// finished, having said nothing but percentages before, and says nothing
/// after it.
pub proof fn lemma_missing_sign_finishes(segments: Seq<Seq<char>>, k: int)
    requires
        0 <= k < segments.len(),
        run(ReaderState::WaitingForProgress, segments.take(k)).state
            == ReaderState::WaitingForProgress,
        !segments[k].contains('%'),
    ensures
        run(ReaderState::WaitingForProgress, segments).state == ReaderState::Finished,
        run(ReaderState::WaitingForProgress, segments).messages == run(
            ReaderState::WaitingForProgress,
            segments.take(k),
        ).messages.push(DownloaderMessageView::DownloadFinished),
        forall|i: int|
            0 <= i < run(ReaderState::WaitingForProgress, segments.take(k)).messages.len() ==> (
            #[trigger] run(ReaderState::WaitingForProgress, segments.take(k)).messages[i])
                is DownloadProgressed,
{
    let head = segments.take(k);
    let tail = segments.skip(k);
    assert(head + tail =~= segments);
    lemma_run_in_two(ReaderState::WaitingForProgress, head, tail);
    lemma_progress_only(head);
    lemma_finished_reads_nothing(tail.drop_first());
    assert(tail[0] == segments[k]);
    let before = run(ReaderState::WaitingForProgress, head).messages;
    let end = run(ReaderState::WaitingForProgress, tail).messages;
    assert(end =~= seq![DownloaderMessageView::DownloadFinished]);
    assert(before + end =~= before.push(DownloaderMessageView::DownloadFinished));
}

/// The token of a progress frame is what stands directly in front of its
/// first percent sign, back to the nearest space: whatever stands earlier
/// in the frame, numbers too, and whatever follows the sign, plays no part.
pub proof fn lemma_token_stands_before_sign(lead: Seq<char>, token: Seq<char>, tail: Seq<char>)
    requires
        !lead.contains('%'),
        lead.len() == 0 || lead.last() == ' ',
        !token.contains(' '),
        !token.contains('%'),
    ensures
        (lead + token + seq!['%'] + tail).contains('%'),
        token_in(lead + token + seq!['%'] + tail) == token,
{
    let segment = lead + token + seq!['%'] + tail;
    let sign = lead.len() + token.len();
    assert(segment[sign as int] == '%');
    assert forall|j: int| 0 <= j < sign implies segment[j] != '%' by {
        if j < lead.len() {
            assert(lead[j] == segment[j]);
            assert(lead.contains(segment[j]));
        } else {
            assert(token[j - lead.len()] == segment[j]);
            assert(token.contains(segment[j]));
        }
    }
    lemma_first_index_is(segment, '%', sign as int);
    let front = before_first(segment, '%');
    assert(front =~= lead + token);
    let space = lead.len() - 1;
    assert forall|j: int| space < j < front.len() implies front[j] != ' ' by {
        assert(token[j - lead.len()] == front[j]);
        assert(token.contains(front[j]));
    }
    lemma_last_index_is(front, ' ', space);
    assert(front.skip(space + 1) =~= token);
}

/// Bytes that hold no delimiter of the reader's state are held back, and
/// nothing is said of them.
pub proof fn lemma_drain_waits_for_delimiter(state: ReaderState, pending: Seq<u8>)
    requires
        delimiter(state) matches Some(d) && !pending.contains(d),
    ensures
        drain(state, pending) == (Drained { state, pending, messages: Seq::empty() }),
{
}

/// The bytes in front of the first delimiter are read as one segment, as
/// the text that they decode to, and the bytes behind that delimiter are
/// read in the state that follows.
pub proof fn lemma_drain_cuts_at_delimiter(state: ReaderState, segment: Seq<u8>, rest: Seq<u8>)
    requires
        delimiter(state) matches Some(d) && !segment.contains(d),
    ensures
        drain(state, segment + seq![delimiter(state).unwrap()] + rest).state == drain(
            step(state, utf8_lossy(segment)).state,
            rest,
        ).state,
        drain(state, segment + seq![delimiter(state).unwrap()] + rest).pending == drain(
            step(state, utf8_lossy(segment)).state,
            rest,
        ).pending,
        drain(state, segment + seq![delimiter(state).unwrap()] + rest).messages == said(
            step(state, utf8_lossy(segment)).message,
        ) + drain(step(state, utf8_lossy(segment)).state, rest).messages,
{
    let d = delimiter(state).unwrap();
    let pending = segment + seq![d] + rest;
    let at = segment.len() as int;
    assert(pending[at] == d);
    assert forall|j: int| 0 <= j < at implies pending[j] != d by {
        assert(pending[j] == segment[j]);
        assert(segment.contains(pending[j]));
    }
    lemma_first_index_is(pending, d, at);
    assert(before_first(pending, d) =~= segment);
    assert(after_first(pending, d) =~= rest);
}

/// A reader never holds back a segment that is whole: what it holds
/// contains no delimiter of its state, and a finished reader holds nothing.
pub proof fn lemma_drain_holds_no_whole_segment(state: ReaderState, pending: Seq<u8>)
    ensures
        match delimiter(drain(state, pending).state) {
            Some(d) => !drain(state, pending).pending.contains(d),
            None => drain(state, pending).pending.len() == 0,
        },
    decreases pending.len(),
{
    match delimiter(state) {
        None => {},
        Some(d) => {
            if pending.contains(d) {
                lemma_first_index(pending, d);
                let first = step(state, utf8_lossy(before_first(pending, d)));
                lemma_drain_holds_no_whole_segment(first.state, after_first(pending, d));
            }
        },
    }
}

/// The bytes of `segments`, each followed by `delimiter`, in one run.
pub open spec fn framed(segments: Seq<Seq<u8>>, delimiter: u8) -> Seq<u8>
    decreases segments.len(),
{
    if segments.len() == 0 {
        Seq::empty()
    } else {
        segments[0] + seq![delimiter] + framed(segments.drop_first(), delimiter)
    }
}

/// The texts that `segments` decode to, in order.
pub open spec fn decoded(segments: Seq<Seq<u8>>) -> Seq<Seq<char>> {
    Seq::new(segments.len(), |i: int| utf8_lossy(segments[i]))
}

/// A reader that holds nothing and is given nothing stays as it is.
pub proof fn lemma_drain_of_nothing(state: ReaderState)
    ensures
        drain(state, Seq::empty()).state == state,
        drain(state, Seq::empty()).pending == Seq::<u8>::empty(),
        drain(state, Seq::empty()).messages == Seq::<DownloaderMessageView>::empty(),
{
}

/// Once the file is announced, the reader takes its input frame by frame:
/// fed frames that each end in a carriage return, it says what reading
/// their texts in turn gives, and goes on with what follows the frames
/// from the state that they lead to.
pub proof fn lemma_drain_reads_frames(state: ReaderState, frames: Seq<Seq<u8>>, rest: Seq<u8>)
    requires
        state != ReaderState::WaitingForName,
        forall|i: int| 0 <= i < frames.len() ==> !(#[trigger] frames[i]).contains(13u8),
    ensures
        run(state, decoded(frames)).state != ReaderState::WaitingForName,
        drain(state, framed(frames, 13u8) + rest).state == drain(
            run(state, decoded(frames)).state,
            rest,
        ).state,
        drain(state, framed(frames, 13u8) + rest).pending == drain(
            run(state, decoded(frames)).state,
            rest,
        ).pending,
        drain(state, framed(frames, 13u8) + rest).messages == run(
            state,
            decoded(frames),
        ).messages + drain(run(state, decoded(frames)).state, rest).messages,
    decreases frames.len(),
{
    let read = run(state, decoded(frames));
    let after = drain(read.state, rest);
    if frames.len() == 0 {
        assert(framed(frames, 13u8) + rest =~= rest);
        assert(read.messages + after.messages =~= after.messages);
    } else if state == ReaderState::Finished {
        lemma_finished_reads_nothing(decoded(frames));
        assert(read.messages + after.messages =~= Seq::empty());
    } else {
        let tail = frames.drop_first();
        let first = step(state, utf8_lossy(frames[0]));
        assert(framed(frames, 13u8) + rest =~= frames[0] + seq![13u8] + (framed(tail, 13u8)
            + rest));
        lemma_drain_cuts_at_delimiter(state, frames[0], framed(tail, 13u8) + rest);
        assert(decoded(frames)[0] == utf8_lossy(frames[0]));
        assert(decoded(frames).drop_first() =~= decoded(tail));
        assert forall|i: int| 0 <= i < tail.len() implies !(#[trigger] tail[i]).contains(
            13u8,
        ) by {
            assert(tail[i] == frames[i + 1]);
        }
        lemma_drain_reads_frames(first.state, tail, rest);
        let read_tail = run(first.state, decoded(tail));
        assert(said(first.message) + (read_tail.messages + after.messages) =~= (said(
            first.message,
        ) + read_tail.messages) + after.messages);
    }
}

/// Fed nothing but frames that each end in a carriage return, a reader past
/// the announcement ends in the state, and has said the messages, of
/// reading the frames' texts in turn, and holds nothing back.
pub proof fn lemma_drain_of_frames_is_run(state: ReaderState, frames: Seq<Seq<u8>>)
    requires
        state != ReaderState::WaitingForName,
        forall|i: int| 0 <= i < frames.len() ==> !(#[trigger] frames[i]).contains(13u8),
    ensures
        drain(state, framed(frames, 13u8)).state == run(state, decoded(frames)).state,
        drain(state, framed(frames, 13u8)).pending == Seq::<u8>::empty(),
        drain(state, framed(frames, 13u8)).messages == run(state, decoded(frames)).messages,
{
    let read = run(state, decoded(frames));
    lemma_drain_reads_frames(state, frames, Seq::empty());
    lemma_drain_of_nothing(read.state);
    assert(framed(frames, 13u8) + Seq::<u8>::empty() =~= framed(frames, 13u8));
    assert(read.messages + Seq::<DownloaderMessageView>::empty() =~= read.messages);
}

/// Until the file is announced, the reader takes its input line by line:
/// fed lines that each end in a line feed, of which none but the last
/// announces the file, it says what reading their texts in turn gives, and
/// goes on with what follows the lines from the state that they lead to.
pub proof fn lemma_drain_reads_lines(lines: Seq<Seq<u8>>, rest: Seq<u8>)
    requires
        forall|i: int| 0 <= i < lines.len() ==> !(#[trigger] lines[i]).contains(10u8),
        forall|i: int|
            0 <= i < lines.len() - 1 ==> !occurs_in(utf8_lossy(#[trigger] lines[i]), marker()),
    ensures
        drain(ReaderState::WaitingForName, framed(lines, 10u8) + rest).state == drain(
            run(ReaderState::WaitingForName, decoded(lines)).state,
            rest,
        ).state,
        drain(ReaderState::WaitingForName, framed(lines, 10u8) + rest).pending == drain(
            run(ReaderState::WaitingForName, decoded(lines)).state,
            rest,
        ).pending,
        drain(ReaderState::WaitingForName, framed(lines, 10u8) + rest).messages == run(
            ReaderState::WaitingForName,
            decoded(lines),
        ).messages + drain(run(ReaderState::WaitingForName, decoded(lines)).state, rest).messages,
    decreases lines.len(),
{
    let state = ReaderState::WaitingForName;
    let read = run(state, decoded(lines));
    let after = drain(read.state, rest);
    if lines.len() == 0 {
        assert(framed(lines, 10u8) + rest =~= rest);
        assert(read.messages + after.messages =~= after.messages);
    } else {
        let tail = lines.drop_first();
        let first = step(state, utf8_lossy(lines[0]));
        assert(framed(lines, 10u8) + rest =~= lines[0] + seq![10u8] + (framed(tail, 10u8) + rest));
        lemma_drain_cuts_at_delimiter(state, lines[0], framed(tail, 10u8) + rest);
        assert(decoded(lines)[0] == utf8_lossy(lines[0]));
        assert(decoded(lines).drop_first() =~= decoded(tail));
        let read_tail = run(first.state, decoded(tail));
        if tail.len() == 0 {
            assert(framed(tail, 10u8) + rest =~= rest);
        } else {
            assert(first.state == ReaderState::WaitingForName);
            assert forall|i: int| 0 <= i < tail.len() implies !(#[trigger] tail[i]).contains(
                10u8,
            ) by {
                assert(tail[i] == lines[i + 1]);
            }
            assert forall|i: int| 0 <= i < tail.len() - 1 implies !occurs_in(
                utf8_lossy(#[trigger] tail[i]),
                marker(),
            ) by {
                assert(tail[i] == lines[i + 1]);
            }
            lemma_drain_reads_lines(tail, rest);
        }
        assert(said(first.message) + (read_tail.messages + after.messages) =~= (said(
            first.message,
        ) + read_tail.messages) + after.messages);
    }
}

/// The whole output of a run, as the tool writes it: lines that each end in
/// a line feed, of which the last and no other announces the file, and
/// after them frames that each end in a carriage return. Fed this, a new
/// reader ends in the state, and has said the messages, of reading the
/// texts of the lines and then of the frames in turn, and holds nothing
/// back. What is proved of reading texts in turn thus holds of the bytes.
pub proof fn lemma_drain_of_output_is_run(lines: Seq<Seq<u8>>, frames: Seq<Seq<u8>>)
    requires
        lines.len() > 0,
        forall|i: int| 0 <= i < lines.len() ==> !(#[trigger] lines[i]).contains(10u8),
        forall|i: int|
            0 <= i < lines.len() - 1 ==> !occurs_in(utf8_lossy(#[trigger] lines[i]), marker()),
        occurs_in(utf8_lossy(lines.last()), marker()),
        forall|i: int| 0 <= i < frames.len() ==> !(#[trigger] frames[i]).contains(13u8),
    ensures
        drain(ReaderState::WaitingForName, framed(lines, 10u8) + framed(frames, 13u8)).state
            == run(ReaderState::WaitingForName, decoded(lines) + decoded(frames)).state,
        drain(ReaderState::WaitingForName, framed(lines, 10u8) + framed(frames, 13u8)).pending
            == Seq::<u8>::empty(),
        drain(ReaderState::WaitingForName, framed(lines, 10u8) + framed(frames, 13u8)).messages
            == run(ReaderState::WaitingForName, decoded(lines) + decoded(frames)).messages,
        run(ReaderState::WaitingForName, decoded(lines)).state == ReaderState::SkippingFrame,
        run(ReaderState::WaitingForName, decoded(lines)).messages
            == seq![DownloaderMessageView::NameObtained(name_in(utf8_lossy(lines.last())))],
{
    let start = ReaderState::WaitingForName;
    lemma_lines_lead_to_the_name(lines);
    let named = run(start, decoded(lines));
    lemma_drain_reads_lines(lines, framed(frames, 13u8));
    lemma_drain_of_frames_is_run(named.state, frames);
    lemma_run_in_two(start, decoded(lines), decoded(frames));
}

/// Lines of which the last and no other announces the file lead to one
/// message, the file's name, and to the state in which one frame is passed
/// over.
pub proof fn lemma_lines_lead_to_the_name(lines: Seq<Seq<u8>>)
    requires
        lines.len() > 0,
        forall|i: int|
            0 <= i < lines.len() - 1 ==> !occurs_in(utf8_lossy(#[trigger] lines[i]), marker()),
        occurs_in(utf8_lossy(lines.last()), marker()),
    ensures
        run(ReaderState::WaitingForName, decoded(lines)).state == ReaderState::SkippingFrame,
        run(ReaderState::WaitingForName, decoded(lines)).messages
            == seq![DownloaderMessageView::NameObtained(name_in(utf8_lossy(lines.last())))],
    decreases lines.len(),
{
    let state = ReaderState::WaitingForName;
    let tail = lines.drop_first();
    let first = step(state, utf8_lossy(lines[0]));
    assert(decoded(lines)[0] == utf8_lossy(lines[0]));
    assert(decoded(lines).drop_first() =~= decoded(tail));
    let read_tail = run(first.state, decoded(tail));
    if tail.len() == 0 {
        assert(lines.last() == lines[0]);
        assert(said(first.message) + read_tail.messages =~= said(first.message));
    } else {
        assert(tail.last() == lines.last());
        assert forall|i: int| 0 <= i < tail.len() - 1 implies !occurs_in(
            utf8_lossy(#[trigger] tail[i]),
            marker(),
        ) by {
            assert(tail[i] == lines[i + 1]);
        }
        lemma_lines_lead_to_the_name(tail);
        assert(said(first.message) + read_tail.messages =~= read_tail.messages);
    }
}

/// Fed the whole output of a run, a new reader first says the name of the
/// file that the last line announces, passes over the first frame whatever
/// it holds, and then says what reading the texts of the other frames for
/// progress gives.
pub proof fn lemma_drain_names_then_skips(lines: Seq<Seq<u8>>, frames: Seq<Seq<u8>>)
    requires
        lines.len() > 0,
        forall|i: int| 0 <= i < lines.len() ==> !(#[trigger] lines[i]).contains(10u8),
        forall|i: int|
            0 <= i < lines.len() - 1 ==> !occurs_in(utf8_lossy(#[trigger] lines[i]), marker()),
        occurs_in(utf8_lossy(lines.last()), marker()),
        frames.len() > 0,
        forall|i: int| 0 <= i < frames.len() ==> !(#[trigger] frames[i]).contains(13u8),
    ensures
        drain(ReaderState::WaitingForName, framed(lines, 10u8) + framed(frames, 13u8)).state
            == run(ReaderState::WaitingForProgress, decoded(frames.drop_first())).state,
        drain(ReaderState::WaitingForName, framed(lines, 10u8) + framed(frames, 13u8)).messages
            == seq![DownloaderMessageView::NameObtained(name_in(utf8_lossy(lines.last())))] + run(
            ReaderState::WaitingForProgress,
            decoded(frames.drop_first()),
        ).messages,
{
    lemma_drain_of_output_is_run(lines, frames);
    lemma_run_in_two(ReaderState::WaitingForName, decoded(lines), decoded(frames));
    assert(decoded(frames).drop_first() =~= decoded(frames.drop_first()));
    let skipped = run(ReaderState::SkippingFrame, decoded(frames));
    let progress = run(ReaderState::WaitingForProgress, decoded(frames.drop_first()));
    assert(skipped.messages =~= progress.messages);
}

/// Fed frames of progress of which the one at `k` is the first to end the
/// run, and ends it by holding no percent sign, a reader that reads
/// progress says the percentages of the frames before it, then once that
/// the download has finished, and no more; it is `Finished` and holds
/// nothing back.
pub proof fn lemma_drain_missing_sign_finishes(frames: Seq<Seq<u8>>, k: int)
    requires
        0 <= k < frames.len(),
        forall|i: int| 0 <= i < frames.len() ==> !(#[trigger] frames[i]).contains(13u8),
        run(ReaderState::WaitingForProgress, decoded(frames.take(k))).state
            == ReaderState::WaitingForProgress,
        !utf8_lossy(frames[k]).contains('%'),
    ensures
        drain(ReaderState::WaitingForProgress, framed(frames, 13u8)).state
            == ReaderState::Finished,
        drain(ReaderState::WaitingForProgress, framed(frames, 13u8)).pending
            == Seq::<u8>::empty(),
        drain(ReaderState::WaitingForProgress, framed(frames, 13u8)).messages == run(
            ReaderState::WaitingForProgress,
            decoded(frames.take(k)),
        ).messages.push(DownloaderMessageView::DownloadFinished),
        forall|i: int|
            0 <= i < run(
                ReaderState::WaitingForProgress,
                decoded(frames.take(k)),
            ).messages.len() ==> (#[trigger] run(
                ReaderState::WaitingForProgress,
                decoded(frames.take(k)),
            ).messages[i]) is DownloadProgressed,
{
    lemma_drain_of_frames_is_run(ReaderState::WaitingForProgress, frames);
    assert(decoded(frames).take(k) =~= decoded(frames.take(k)));
    assert(decoded(frames)[k] == utf8_lossy(frames[k]));
    lemma_missing_sign_finishes(decoded(frames), k);
}

/// Feeding a reader its input in two pieces gives what feeding it in one
/// piece gives: where a piece ends does not matter.
pub proof fn lemma_drain_in_two(state: ReaderState, head: Seq<u8>, tail: Seq<u8>)
    ensures
        drain(state, head + tail).state == drain(
            drain(state, head).state,
            drain(state, head).pending + tail,
        ).state,
        drain(state, head + tail).pending == drain(
            drain(state, head).state,
            drain(state, head).pending + tail,
        ).pending,
        drain(state, head + tail).messages == drain(state, head).messages + drain(
            drain(state, head).state,
            drain(state, head).pending + tail,
        ).messages,
    decreases head.len(),
{
    let whole = drain(state, head + tail);
    let one = drain(state, head);
    let two = drain(one.state, one.pending + tail);
    match delimiter(state) {
        None => {
            assert(one.messages + two.messages =~= whole.messages);
        },
        Some(d) => {
            lemma_first_index(head, d);
            if head.contains(d) {
                let at = first_index(head, d);
                assert((head + tail)[at] == d);
                assert forall|j: int| 0 <= j < at implies (head + tail)[j] != d by {
                    assert((head + tail)[j] == head[j]);
                }
                lemma_first_index_is(head + tail, d, at);
                assert(before_first(head + tail, d) =~= before_first(head, d));
                assert(after_first(head + tail, d) =~= after_first(head, d) + tail);
                let first = step(state, utf8_lossy(before_first(head, d)));
                lemma_drain_in_two(first.state, after_first(head, d), tail);
                let rest = drain(first.state, after_first(head, d));
                assert(said(first.message) + (rest.messages + two.messages) =~= (said(
                    first.message,
                ) + rest.messages) + two.messages);
            } else {
                assert(one.messages + two.messages =~= two.messages);
            }
        },
    }
}

} // verus!
