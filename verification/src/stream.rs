//! How an answer comes in: events of the stream, and text that is shown piece by piece.

use crate::app::{App, AppView};
use crate::measure::{graphemes, graphemes_spec};
use crate::message::{text_message, tool_message, Message, MessageView, Role};
use crate::text::concat_spec;
use std::collections::VecDeque;
use vstd::prelude::*;

verus! {

// ─── Events ──────────────────────────────────────────────────────────────────

/// An event of the stream.
pub enum StreamMsg {
    /// The model is about to send text: an empty answer stands for it.
    AssistantStart,
    Token(String),
    /// The model calls a tool, which is shown in progress.
    ToolStart { name: String, args_preview: String },
    /// The tool has finished.
    ToolDone { result_preview: String },
    /// The tool has failed.
    ToolFailed { error: String },
    /// The agent waits for the user to allow an operation that changes something.
    ApprovalRequired { summary: String },
    Done,
    /// The stream broke off.
    Failed(String),
}

/// What a [`StreamMsg`] holds.
#[verifier::ext_equal]
pub enum StreamView {
    AssistantStart,
    Token(Seq<char>),
    ToolStart { name: Seq<char>, args_preview: Seq<char> },
    ToolDone { result_preview: Seq<char> },
    ToolFailed { error: Seq<char> },
    ApprovalRequired { summary: Seq<char> },
    Done,
    Failed(Seq<char>),
}

impl DeepView for StreamMsg {
    type V = StreamView;

    open spec fn deep_view(&self) -> StreamView {
        match self {
            StreamMsg::AssistantStart => StreamView::AssistantStart,
            StreamMsg::Token(t) => StreamView::Token(t@),
            StreamMsg::ToolStart { name, args_preview } => StreamView::ToolStart {
                name: name@,
                args_preview: args_preview@,
            },
            StreamMsg::ToolDone { result_preview } => StreamView::ToolDone {
                result_preview: result_preview@,
            },
            StreamMsg::ToolFailed { error } => StreamView::ToolFailed { error: error@ },
            StreamMsg::ApprovalRequired { summary } => StreamView::ApprovalRequired {
                summary: summary@,
            },
            StreamMsg::Done => StreamView::Done,
            StreamMsg::Failed(e) => StreamView::Failed(e@),
        }
    }
}

impl StreamView {
    /// Whether no further event is read before the state has been shown: the user has to answer,
    /// or the stream is over.
    pub open spec fn stops_draining(self) -> bool {
        self is ApprovalRequired || self is Done || self is Failed
    }

    /// Whether the event shows at once. Text waits in the queue, and so does the end of the
    /// stream.
    pub open spec fn shows(self) -> bool {
        !(self is Token || self is Done || self is Failed)
    }
}

impl StreamMsg {
    /// Whether no further event is read before the state has been shown.
    pub fn stops_draining(&self) -> (r: bool)
        ensures
            r == self.deep_view().stops_draining(),
    {
        match self {
            StreamMsg::ApprovalRequired { .. } | StreamMsg::Done | StreamMsg::Failed(_) => true,
            _ => false,
        }
    }
}

// ─── Messages that are not finished ──────────────────────────────────────────

/// Whether `m` is a tool call that still runs.
pub open spec fn is_open_tool(m: MessageView) -> bool {
    m.is_tool() && !m.complete
}

/// Whether `m` is an answer that is still being written.
pub open spec fn is_open_text(m: MessageView) -> bool {
    !m.is_tool() && !m.complete
}

/// The index of the last tool call that still runs.
pub open spec fn last_open_tool(messages: Seq<MessageView>) -> Option<int>
    decreases messages.len(),
{
    if messages.len() == 0 {
        None
    } else if is_open_tool(messages.last()) {
        Some(messages.len() - 1)
    } else {
        last_open_tool(messages.drop_last())
    }
}

/// The index of the last text that is still being written.
pub open spec fn last_open_text(messages: Seq<MessageView>) -> Option<int>
    decreases messages.len(),
{
    if messages.len() == 0 {
        None
    } else if is_open_text(messages.last()) {
        Some(messages.len() - 1)
    } else {
        last_open_text(messages.drop_last())
    }
}

proof fn lemma_last_open_text(messages: Seq<MessageView>)
    ensures
        match last_open_text(messages) {
            Some(i) => 0 <= i < messages.len() && is_open_text(messages[i]) && forall|j: int|
                i < j < messages.len() ==> !is_open_text(#[trigger] messages[j]),
            None => forall|j: int|
                0 <= j < messages.len() ==> !is_open_text(#[trigger] messages[j]),
        },
    decreases messages.len(),
{
    if messages.len() > 0 && !is_open_text(messages.last()) {
        let front = messages.drop_last();
        lemma_last_open_text(front);
        assert forall|j: int|
            (match last_open_text(front) {
                Some(i) => i,
                None => -1,
            }) < j < messages.len() implies !is_open_text(#[trigger] messages[j]) by {
            if j < front.len() {
                assert(messages[j] == front[j]);
            }
        }
    }
}

proof fn lemma_find_open_text(messages: Seq<MessageView>, i: int)
    requires
        0 <= i < messages.len(),
        is_open_text(messages[i]),
        forall|j: int| i < j < messages.len() ==> !is_open_text(#[trigger] messages[j]),
    ensures
        last_open_text(messages) == Some(i),
{
    lemma_last_open_text(messages);
    match last_open_text(messages) {
        Some(k) => {
            if k > i {
                assert(!is_open_text(messages[k]));
            }
        },
        None => {},
    }
}

/// `messages` with the last running tool call finished.
pub open spec fn finish_tool(messages: Seq<MessageView>, content: Seq<char>, failed: bool) -> Seq<
    MessageView,
> {
    match last_open_tool(messages) {
        Some(i) => messages.update(
            i,
            MessageView {
                content,
                complete: true,
                tool_failed: failed || messages[i].tool_failed,
                ..messages[i]
            },
        ),
        None => messages,
    }
}

/// `messages` with `text` behind the answer that is being written.
pub open spec fn append_text(messages: Seq<MessageView>, text: Seq<char>) -> Seq<MessageView> {
    match last_open_text(messages) {
        Some(i) => messages.update(
            i,
            MessageView { content: messages[i].content + text, ..messages[i] },
        ),
        None => messages,
    }
}

/// `messages` with the answer that was being written finished.
pub open spec fn close_text(messages: Seq<MessageView>) -> Seq<MessageView> {
    match last_open_text(messages) {
        Some(i) => messages.update(i, MessageView { complete: true, ..messages[i] }),
        None => messages,
    }
}

fn find_open_tool(messages: &Vec<Message>) -> (r: Option<usize>)
    ensures
        match r {
            Some(i) => i < messages.len() && last_open_tool(messages.deep_view()) == Some(i as int),
            None => last_open_tool(messages.deep_view()) is None,
        },
{
    let ghost all = messages.deep_view();
    let mut i: usize = messages.len();
    assert(all.take(all.len() as int) =~= all);
    while i > 0
        invariant
            i <= messages.len(),
            all == messages.deep_view(),
            last_open_tool(all) == last_open_tool(all.take(i as int)),
        decreases i,
    {
        i -= 1;
        proof {
            assert(all.take(i + 1).drop_last() =~= all.take(i as int));
            assert(all[i as int] == messages@[i as int].deep_view());
        }
        if messages[i].is_tool() && !messages[i].complete {
            return Some(i);
        }
    }
    None
}

fn find_open_text(messages: &Vec<Message>) -> (r: Option<usize>)
    ensures
        match r {
            Some(i) => i < messages.len() && last_open_text(messages.deep_view()) == Some(i as int),
            None => last_open_text(messages.deep_view()) is None,
        },
{
    let ghost all = messages.deep_view();
    let mut i: usize = messages.len();
    assert(all.take(all.len() as int) =~= all);
    while i > 0
        invariant
            i <= messages.len(),
            all == messages.deep_view(),
            last_open_text(all) == last_open_text(all.take(i as int)),
        decreases i,
    {
        i -= 1;
        proof {
            assert(all.take(i + 1).drop_last() =~= all.take(i as int));
            assert(all[i as int] == messages@[i as int].deep_view());
        }
        if !messages[i].is_tool() && !messages[i].complete {
            return Some(i);
        }
    }
    None
}

fn write_text(messages: &mut Vec<Message>, text: &str)
    ensures
        final(messages).deep_view() == append_text(old(messages).deep_view(), text@),
{
    let ghost before = messages.deep_view();
    if let Some(i) = find_open_text(messages) {
        assert(before[i as int] == messages@[i as int].deep_view());
        let mut content: String = messages[i].content.clone();
        content.append(text);
        messages[i].content = content;
        assert(messages.deep_view() =~= append_text(before, text@));
    }
}

fn take_first(queue: &mut VecDeque<String>) -> (r: Option<String>)
    ensures
        match r {
            Some(g) => old(queue).deep_view().len() > 0 && g@ == old(queue).deep_view()[0]
                && final(queue).deep_view() == old(queue).deep_view().drop_first(),
            None => old(queue).deep_view().len() == 0 && final(queue).deep_view() == old(
                queue,
            ).deep_view(),
        },
{
    let ghost waiting = queue.deep_view();
    assert(waiting.len() == queue@.len());
    let first: Option<String> = queue.pop_front();
    proof {
        if first is Some {
            assert(queue.deep_view() =~= waiting.drop_first());
        } else {
            assert(queue.deep_view() =~= waiting);
        }
    }
    first
}

// ─── Receiving ───────────────────────────────────────────────────────────────

/// The state after `pieces` have arrived as text.
pub open spec fn queued_spec(app: AppView, pieces: Seq<Seq<char>>) -> AppView {
    AppView { grapheme_queue: app.grapheme_queue + pieces, ..app }
}

/// The state after an event of the stream.
pub open spec fn received_spec(app: AppView, event: StreamView) -> AppView {
    match event {
        StreamView::AssistantStart => AppView {
            messages: app.messages.push(
                text_message(Role::Assistant, Seq::empty(), false, false),
            ),
            ..app
        },
        StreamView::Token(t) => queued_spec(app, graphemes_spec(t)),
        StreamView::ToolStart { name, args_preview } => AppView {
            messages: app.messages.push(tool_message(name, args_preview)),
            ..app
        },
        StreamView::ToolDone { result_preview } => AppView {
            messages: finish_tool(app.messages, result_preview, false),
            ..app
        },
        StreamView::ToolFailed { error } => AppView {
            messages: finish_tool(app.messages, error, true),
            ..app
        },
        StreamView::ApprovalRequired { summary } => AppView {
            pending_approval: Some(summary),
            ..app
        },
        StreamView::Done => AppView { stream_open: false, stream_pending_done: true, ..app },
        StreamView::Failed(e) => AppView { stream_open: false, stream_pending_err: Some(e), ..app },
    }
}

/// Whether the answer that is being written stays the one that text goes to: no other starts, and
/// no error takes its place.
pub open spec fn keeps_answer(event: StreamView) -> bool {
    !(event is AssistantStart || event is Failed)
}

/// Whether there is an answer that is being written, and it stays so through `events`.
pub open spec fn answer_is_kept(app: AppView, events: Seq<StreamView>) -> bool {
    &&& last_open_text(app.messages) is Some
    &&& app.stream_pending_err is None
    &&& forall|i: int| 0 <= i < events.len() ==> keeps_answer(#[trigger] events[i])
}

/// The text that the first `n` of `events` bring.
pub open spec fn tokens_text(events: Seq<StreamView>, n: int) -> Seq<char>
    decreases n,
{
    if n <= 0 {
        Seq::empty()
    } else {
        tokens_text(events, n - 1) + match events[n - 1] {
            StreamView::Token(t) => t,
            _ => Seq::empty(),
        }
    }
}

/// The answer at the index `k` as it will be when all that waits has been shown.
pub open spec fn answer_text(app: AppView, k: int) -> Seq<char> {
    app.messages[k].content + concat_spec(app.grapheme_queue)
}

/// The state after the first `n` of `events`.
pub open spec fn received_all(app: AppView, events: Seq<StreamView>, n: int) -> AppView
    decreases n,
{
    if n <= 0 {
        app
    } else {
        received_spec(received_all(app, events, n - 1), events[n - 1])
    }
}

// ─── Showing ─────────────────────────────────────────────────────────────────

/// How many graphemes are shown at once: the more wait, the more are shown.
pub open spec fn release_count(waiting: nat) -> nat {
    if waiting <= 5 {
        1
    } else if waiting <= 30 {
        3
    } else if waiting <= 80 {
        6
    } else {
        12
    }
}

fn release_size(waiting: usize) -> (r: usize)
    ensures
        r == release_count(waiting as nat),
{
    if waiting <= 5 {
        1
    } else if waiting <= 30 {
        3
    } else if waiting <= 80 {
        6
    } else {
        12
    }
}

/// The state after the first grapheme of the queue has gone to the answer.
pub open spec fn released_one(app: AppView) -> AppView {
    AppView {
        messages: append_text(app.messages, app.grapheme_queue[0]),
        grapheme_queue: app.grapheme_queue.drop_first(),
        ..app
    }
}

/// The state after up to `n` graphemes have left the queue for the answer.
pub open spec fn released_spec(app: AppView, n: nat) -> AppView
    decreases n,
{
    if n == 0 || app.grapheme_queue.len() == 0 {
        app
    } else {
        released_spec(released_one(app), (n - 1) as nat)
    }
}

/// Whether the stream is over and all of it has been shown.
pub open spec fn is_finished(app: AppView) -> bool {
    app.grapheme_queue.len() == 0 && (app.stream_pending_done || app.stream_pending_err is Some)
}

/// `messages` with an error shown: in place of the last message where it is an answer without its
/// end, behind it otherwise.
pub open spec fn with_error(messages: Seq<MessageView>, e: Seq<char>) -> Seq<MessageView> {
    let content = "[error: "@ + e + "]"@;
    if messages.len() == 0 || messages.last().is_tool() || messages.last().complete {
        messages.push(text_message(Role::Assistant, content, true, false))
    } else {
        messages.update(
            messages.len() - 1,
            MessageView { content, complete: true, ..messages.last() },
        )
    }
}

/// The state after the end of the stream has been shown.
pub open spec fn finished_spec(app: AppView) -> AppView {
    AppView {
        messages: match app.stream_pending_err {
            Some(e) => with_error(app.messages, e),
            None => close_text(app.messages),
        },
        stream_pending_err: None,
        stream_pending_done: false,
        is_streaming: false,
        ..app
    }
}

/// What came of [`App::drain_tokens`].
#[derive(Clone, Copy, PartialEq, Eq, Debug, Structural)]
pub struct Drained {
    /// There is something new to show.
    pub changed: bool,
    /// An answer is complete, and the conversation is to be saved.
    pub save: bool,
}

/// Whether one of the first `n` of `events` shows at once.
pub open spec fn any_shows(events: Seq<StreamView>, n: int) -> bool {
    exists|i: int| 0 <= i < n && #[trigger] events[i].shows()
}

/// What comes of a round of the stream, `queued` being the state after the events.
pub open spec fn drained_spec(queued: AppView, shows: bool) -> (AppView, Drained) {
    let released = released_spec(queued, release_count(queued.grapheme_queue.len()));
    let save = is_finished(released);
    let shown = if save {
        finished_spec(released)
    } else {
        released
    };
    let changed = shows || queued.grapheme_queue.len() > 0 || save;
    (
        AppView { display_lines_dirty: shown.display_lines_dirty || changed, ..shown },
        Drained { changed, save },
    )
}

impl App {
    /// Put text that has arrived into the queue.
    pub fn queue_graphemes(&mut self, pieces: Vec<String>)
        ensures
            final(self).deep_view() == queued_spec(old(self).deep_view(), pieces.deep_view()),
    {
        let ghost start = self.deep_view();
        let ghost all = pieces.deep_view();
        let mut i: usize = 0;
        assert(self.grapheme_queue.deep_view() =~= start.grapheme_queue + all.take(0));
        while i < pieces.len()
            invariant
                i <= pieces.len(),
                all == pieces.deep_view(),
                self.deep_view() == queued_spec(start, all.take(i as int)),
            decreases pieces.len() - i,
        {
            let ghost before = self.grapheme_queue.deep_view();
            self.grapheme_queue.push_back(pieces[i].clone());
            proof {
                assert(self.grapheme_queue.deep_view() =~= before.push(all[i as int]));
                assert(self.grapheme_queue.deep_view() =~= start.grapheme_queue + all.take(i + 1));
            }
            i += 1;
        }
        assert(all.take(all.len() as int) =~= all);
    }

    fn finish_last_tool(&mut self, content: String, failed: bool)
        ensures
            final(self).deep_view() == (AppView {
                messages: finish_tool(old(self).deep_view().messages, content@, failed),
                ..old(self).deep_view()
            }),
    {
        let ghost before = self.messages.deep_view();
        let ghost text = content@;
        if let Some(i) = find_open_tool(&self.messages) {
            assert(before[i as int] == self.messages@[i as int].deep_view());
            self.messages[i].content = content;
            self.messages[i].complete = true;
            if failed {
                self.messages[i].tool_failed = true;
            }
            assert(self.messages.deep_view() =~= finish_tool(before, text, failed));
        }
    }

    /// Take in one event of the stream.
    pub fn receive(&mut self, event: StreamMsg)
        ensures
            final(self).deep_view() == received_spec(old(self).deep_view(), event.deep_view()),
            event matches StreamMsg::Token(t) ==> concat_spec(final(self).deep_view().grapheme_queue)
                == concat_spec(old(self).deep_view().grapheme_queue) + t@,
    {
        let ghost before = self.messages.deep_view();
        let ghost waiting = self.grapheme_queue.deep_view();
        match event {
            StreamMsg::AssistantStart => {
                let m: Message = Message::text(Role::Assistant, String::new(), false, false);
                let ghost view = m.deep_view();
                self.messages.push(m);
                assert(self.messages.deep_view() =~= before.push(view));
            },
            StreamMsg::Token(t) => {
                let pieces: Vec<String> = graphemes(t.as_str());
                let ghost added = pieces.deep_view();
                self.queue_graphemes(pieces);
                proof {
                    lemma_concat(waiting, added);
                }
            },
            StreamMsg::ToolStart { name, args_preview } => {
                let m: Message = Message::tool_event(name, args_preview);
                let ghost view = m.deep_view();
                self.messages.push(m);
                assert(self.messages.deep_view() =~= before.push(view));
            },
            StreamMsg::ToolDone { result_preview } => {
                self.finish_last_tool(result_preview, false);
            },
            StreamMsg::ToolFailed { error } => {
                self.finish_last_tool(error, true);
            },
            StreamMsg::ApprovalRequired { summary } => {
                self.pending_approval = Some(summary);
            },
            StreamMsg::Done => {
                self.stream_open = false;
                self.stream_pending_done = true;
            },
            StreamMsg::Failed(e) => {
                self.stream_open = false;
                self.stream_pending_err = Some(e);
            },
        }
    }

    /// Move the first grapheme of the queue to the answer. It goes behind the last text without
    /// its end: a tool call may have started since it arrived. Returns whether there was one.
    fn release_one(&mut self) -> (r: bool)
        ensures
            r == (old(self).deep_view().grapheme_queue.len() > 0),
            r ==> final(self).deep_view() == released_one(old(self).deep_view()),
            !r ==> final(self).deep_view() == old(self).deep_view(),
    {
        match take_first(&mut self.grapheme_queue) {
            Some(g) => {
                write_text(&mut self.messages, g.as_str());
                true
            },
            None => false,
        }
    }

    /// Move up to `n` graphemes from the queue to the answer.
    fn release(&mut self, n: usize)
        ensures
            final(self).deep_view() == released_spec(old(self).deep_view(), n as nat),
    {
        let ghost goal = released_spec(self.deep_view(), n as nat);
        let mut left: usize = n;
        let mut more: bool = true;
        while left > 0 && more
            invariant
                released_spec(self.deep_view(), left as nat) == goal,
                !more ==> self.deep_view().grapheme_queue.len() == 0,
            decreases left + (if more { 1int } else { 0int }),
        {
            more = self.release_one();
            if more {
                left -= 1;
            }
        }
    }

    fn show_error(&mut self, e: &str)
        ensures
            final(self).deep_view() == (AppView {
                messages: with_error(old(self).deep_view().messages, e@),
                ..old(self).deep_view()
            }),
    {
        let ghost before = self.messages.deep_view();
        assert(before.len() == self.messages@.len());
        let mut content: String = "[error: ".to_string();
        content.append(e);
        content.append("]");
        let n: usize = self.messages.len();
        if n > 0 {
            assert(before.last() == self.messages@[n - 1].deep_view());
        }
        if n == 0 || self.messages[n - 1].is_tool() || self.messages[n - 1].complete {
            let m: Message = Message::text(Role::Assistant, content, true, false);
            let ghost view = m.deep_view();
            self.messages.push(m);
            assert(self.messages.deep_view() =~= before.push(view));
        } else {
            self.messages[n - 1].content = content;
            self.messages[n - 1].complete = true;
        }
        assert(self.messages.deep_view() =~= with_error(before, e@));
    }

    /// Show the end of the stream.
    fn finish_stream(&mut self)
        ensures
            final(self).deep_view() == finished_spec(old(self).deep_view()),
    {
        let ghost before = self.messages.deep_view();
        match self.stream_pending_err.take() {
            Some(e) => {
                self.show_error(e.as_str());
            },
            None => {
                if let Some(i) = find_open_text(&self.messages) {
                    assert(before[i as int] == self.messages@[i as int].deep_view());
                    self.messages[i].complete = true;
                    assert(self.messages.deep_view() =~= close_text(before));
                }
            },
        }
        self.stream_pending_done = false;
        self.is_streaming = false;
    }

    /// Show the end of the stream where all of it has been shown. Returns whether it has.
    fn finish_if_done(&mut self) -> (r: bool)
        ensures
            r == is_finished(old(self).deep_view()),
            r ==> final(self).deep_view() == finished_spec(old(self).deep_view()),
            !r ==> final(self).deep_view() == old(self).deep_view(),
    {
        assert(self.grapheme_queue.deep_view().len() == self.grapheme_queue@.len());
        if self.grapheme_queue.len() == 0 && (self.stream_pending_done
            || self.stream_pending_err.is_some()) {
            self.finish_stream();
            true
        } else {
            false
        }
    }

    /// Show what has arrived: some of the text that waits, and the end of the stream once all of
    /// it has been shown. `shows` says whether an event has already changed what is shown.
    pub fn show_arrived(&mut self, shows: bool) -> (r: Drained)
        ensures
            (final(self).deep_view(), r) == drained_spec(old(self).deep_view(), shows),
    {
        let ghost queued = self.deep_view();
        assert(queued.grapheme_queue.len() == self.grapheme_queue@.len());
        let waiting: usize = self.grapheme_queue.len();
        self.release(release_size(waiting));
        let save: bool = self.finish_if_done();
        let changed: bool = shows || waiting > 0 || save;
        let ghost shown = self.deep_view();
        if changed {
            self.display_lines_dirty = true;
        }
        proof {
            let goal = AppView {
                display_lines_dirty: shown.display_lines_dirty || changed,
                ..shown
            };
            assert(self.deep_view() == goal);
        }
        Drained { changed, save }
    }

    /// Take in the events that have arrived, and show some of the text that waits. The events are
    /// those up to the first after which no further one is read.
    pub fn drain_tokens(&mut self, events: Vec<StreamMsg>) -> (r: Drained)
        requires
            !old(self).stream_open ==> events.len() == 0,
            forall|i: int|
                0 <= i < events.len() - 1 ==> !(#[trigger] events@[i]).deep_view().stops_draining(),
        ensures
            (final(self).deep_view(), r) == drained_spec(
                received_all(
                    old(self).deep_view(),
                    events.deep_view(),
                    events.deep_view().len() as int,
                ),
                any_shows(events.deep_view(), events.deep_view().len() as int),
            ),
            // No text is lost, and all of it goes to the answer in the order in which it came.
            answer_is_kept(old(self).deep_view(), events.deep_view()) ==> answer_text(
                final(self).deep_view(),
                last_open_text(old(self).deep_view().messages)->Some_0,
            ) == answer_text(
                old(self).deep_view(),
                last_open_text(old(self).deep_view().messages)->Some_0,
            ) + tokens_text(events.deep_view(), events.deep_view().len() as int),
    {
        let ghost start = self.deep_view();
        let ghost kept = answer_is_kept(start, events.deep_view());
        let ghost k = last_open_text(start.messages)->Some_0;
        assert(answer_text(start, k) + Seq::empty() =~= answer_text(start, k));
        let ghost all = events.deep_view();
        let mut shows: bool = false;
        for event in it: events
            invariant
                it.seq() == events@,
                all == events.deep_view(),
                self.deep_view() == received_all(start, all, it.index() as int),
                shows == any_shows(all, it.index() as int),
                kept ==> (forall|i: int| 0 <= i < all.len() ==> keeps_answer(#[trigger] all[i])),
                kept ==> self.deep_view().stream_pending_err is None,
                kept ==> last_open_text(self.deep_view().messages) == Some(k),
                kept ==> answer_text(self.deep_view(), k) == answer_text(start, k) + tokens_text(
                    all,
                    it.index() as int,
                ),
        {
            let ghost i = it.index() as int;
            let ghost app = self.deep_view();
            proof {
                if kept && !(all[i] is Token) {
                    lemma_keeps_answer(app, all[i], k);
                }
                assert(all[i] == event.deep_view());
                assert(any_shows(all, i + 1) == (any_shows(all, i) || all[i].shows())) by {
                    if any_shows(all, i) {
                        let k = choose|k: int| 0 <= k < i && #[trigger] all[k].shows();
                        assert(0 <= k < i + 1 && all[k].shows());
                    }
                }
            }
            match event {
                StreamMsg::Token(_) | StreamMsg::Done | StreamMsg::Failed(_) => {},
                _ => {
                    shows = true;
                },
            }
            self.receive(event);
            proof {
                if kept {
                    let text = tokens_text(all, i);
                    let more = tokens_text(all, i + 1);
                    match all[i] {
                        StreamView::Token(t) => {
                            assert(more == text + t);
                            assert(answer_text(self.deep_view(), k) =~= answer_text(app, k) + t);
                        },
                        _ => {
                            assert(more =~= text);
                        },
                    }
                    assert(answer_text(self.deep_view(), k) =~= answer_text(start, k) + more);
                }
            }
        }
        proof {
            if kept {
                law_drain_keeps_text(self.deep_view(), shows);
            }
        }
        self.show_arrived(shows)
    }
}

// ─── Laws ────────────────────────────────────────────────────────────────────

proof fn lemma_concat(a: Seq<Seq<char>>, b: Seq<Seq<char>>)
    ensures
        concat_spec(a + b) == concat_spec(a) + concat_spec(b),
    decreases b.len(),
{
    if b.len() == 0 {
        assert(a + b =~= a);
        assert(concat_spec(a) + concat_spec(b) =~= concat_spec(a));
    } else {
        assert((a + b).drop_last() =~= a + b.drop_last());
        lemma_concat(a, b.drop_last());
        assert(concat_spec(a + b) =~= concat_spec(a) + concat_spec(b));
    }
}

proof fn lemma_append_text(messages: Seq<MessageView>, text: Seq<char>)
    ensures
        append_text(messages, text).len() == messages.len(),
        last_open_text(append_text(messages, text)) == last_open_text(messages),
        forall|j: int|
            0 <= j < messages.len() && last_open_text(messages) != Some(j)
                ==> #[trigger] append_text(messages, text)[j] == messages[j],
        last_open_text(messages) matches Some(k) ==> append_text(messages, text)[k].content
            == messages[k].content + text,
{
    lemma_last_open_text(messages);
    match last_open_text(messages) {
        Some(k) => {
            let longer = append_text(messages, text);
            assert(is_open_text(longer[k]));
            assert forall|j: int| k < j < longer.len() implies !is_open_text(
                #[trigger] longer[j],
            ) by {
                assert(!is_open_text(messages[j]));
            }
            lemma_find_open_text(longer, k);
        },
        None => {},
    }
}

/// Showing loses no text and keeps its order: what has been written of the answer, with what waits
/// behind it, stays the same. Nothing but the answer changes, and what waits gets shorter.
pub proof fn law_release_keeps_text(app: AppView, n: nat)
    requires
        last_open_text(app.messages) is Some,
    ensures
        ({
            let shown = released_spec(app, n);
            let k = last_open_text(app.messages)->Some_0;
            &&& last_open_text(shown.messages) == Some(k)
            &&& shown.messages.len() == app.messages.len()
            &&& shown.messages[k].content + concat_spec(shown.grapheme_queue)
                == app.messages[k].content + concat_spec(app.grapheme_queue)
            &&& forall|j: int|
                0 <= j < app.messages.len() && j != k ==> #[trigger] shown.messages[j]
                    == app.messages[j]
            &&& shown.grapheme_queue.len() == (if n < app.grapheme_queue.len() {
                app.grapheme_queue.len() - n
            } else {
                0
            })
        }),
    decreases n,
{
    if n > 0 && app.grapheme_queue.len() > 0 {
        let g = app.grapheme_queue[0];
        let rest = app.grapheme_queue.drop_first();
        let next = released_one(app);
        let k = last_open_text(app.messages)->Some_0;
        lemma_append_text(app.messages, g);
        lemma_last_open_text(app.messages);
        law_release_keeps_text(next, (n - 1) as nat);
        assert(app.grapheme_queue =~= seq![g] + rest);
        lemma_concat(seq![g], rest);
        assert(concat_spec(seq![g]) =~= g) by {
            assert(seq![g].drop_last() =~= Seq::<Seq<char>>::empty());
            assert(concat_spec(seq![g].drop_last()) =~= Seq::<char>::empty());
        }
        let shown = released_spec(app, n);
        assert(shown == released_spec(next, (n - 1) as nat));
        assert(next.messages[k].content + concat_spec(rest) =~= app.messages[k].content
            + concat_spec(app.grapheme_queue));
        assert forall|j: int| 0 <= j < app.messages.len() && j != k implies #[trigger] shown.messages[j]
            == app.messages[j] by {
            assert(next.messages[j] == app.messages[j]);
        }
    }
}

proof fn lemma_same_open_text(a: Seq<MessageView>, b: Seq<MessageView>, k: int)
    requires
        last_open_text(a) == Some(k),
        a.len() <= b.len(),
        b[k] == a[k],
        forall|j: int|
            k < j < b.len() ==> ((j < a.len() && is_open_text(b[j]) == is_open_text(a[j]))
                || !is_open_text(#[trigger] b[j])),
    ensures
        last_open_text(b) == Some(k),
{
    lemma_last_open_text(a);
    assert forall|j: int| k < j < b.len() implies !is_open_text(#[trigger] b[j]) by {
        if j < a.len() {
            assert(!is_open_text(a[j]));
        }
    }
    lemma_find_open_text(b, k);
}

proof fn lemma_last_open_tool(messages: Seq<MessageView>)
    ensures
        last_open_tool(messages) matches Some(i) ==> 0 <= i < messages.len() && is_open_tool(
            messages[i],
        ),
    decreases messages.len(),
{
    if messages.len() > 0 && !is_open_tool(messages.last()) {
        lemma_last_open_tool(messages.drop_last());
    }
}

proof fn lemma_keeps_answer(app: AppView, event: StreamView, k: int)
    requires
        last_open_text(app.messages) == Some(k),
        keeps_answer(event),
        !(event is Token),
    ensures
        last_open_text(received_spec(app, event).messages) == Some(k),
        answer_text(received_spec(app, event), k) == answer_text(app, k),
        received_spec(app, event).stream_pending_err == app.stream_pending_err,
{
    lemma_last_open_text(app.messages);
    lemma_last_open_tool(app.messages);
    lemma_same_open_text(app.messages, received_spec(app, event).messages, k);
}

/// A round loses no text: what has been written of the answer, with what waits behind it, stays
/// the same, unless an error takes its place.
pub proof fn law_drain_keeps_text(app: AppView, shows: bool)
    requires
        last_open_text(app.messages) is Some,
        app.stream_pending_err is None,
    ensures
        answer_text(drained_spec(app, shows).0, last_open_text(app.messages)->Some_0)
            == answer_text(app, last_open_text(app.messages)->Some_0),
{
    let n = release_count(app.grapheme_queue.len());
    law_release_keeps_text(app, n);
    lemma_release_keeps_err(app, n);
    lemma_last_open_text(app.messages);
}

proof fn lemma_release_keeps_err(app: AppView, n: nat)
    ensures
        released_spec(app, n).stream_pending_err == app.stream_pending_err,
    decreases n,
{
    if n > 0 && app.grapheme_queue.len() > 0 {
        lemma_release_keeps_err(released_one(app), (n - 1) as nat);
    }
}

/// Whether the pieces of a text make it up again.
pub open spec fn is_whole(text: Seq<char>) -> bool {
    concat_spec(graphemes_spec(text)) == text
}

/// Whether the pieces of every text of `events` make it up again.
pub open spec fn all_whole(events: Seq<StreamView>) -> bool {
    forall|i: int|
        0 <= i < events.len() ==> ((#[trigger] events[i]) matches StreamView::Token(t) ==> is_whole(t))
}

proof fn lemma_received_keeps_text(app: AppView, events: Seq<StreamView>, n: int, k: int)
    requires
        last_open_text(app.messages) == Some(k),
        answer_is_kept(app, events),
        all_whole(events),
        0 <= n <= events.len(),
    ensures
        last_open_text(received_all(app, events, n).messages) == Some(k),
        received_all(app, events, n).stream_pending_err is None,
        answer_text(received_all(app, events, n), k) == answer_text(app, k) + tokens_text(events, n),
    decreases n,
{
    if n > 0 {
        lemma_received_keeps_text(app, events, n - 1, k);
        let before = received_all(app, events, n - 1);
        let after = received_all(app, events, n);
        let event = events[n - 1];
        let text = tokens_text(events, n - 1);
        assert(after == received_spec(before, event));
        assert(keeps_answer(event));
        match event {
            StreamView::Token(t) => {
                assert(is_whole(t));
                lemma_concat(before.grapheme_queue, graphemes_spec(t));
                assert(tokens_text(events, n) == text + t);
                assert(answer_text(after, k) =~= answer_text(before, k) + t);
                assert(answer_text(app, k) + text + t =~= answer_text(app, k) + (text + t));
            },
            _ => {
                lemma_keeps_answer(before, event, k);
                assert(tokens_text(events, n) =~= text);
            },
        }
    } else {
        assert(answer_text(app, k) + tokens_text(events, n) =~= answer_text(app, k));
    }
}

/// The state after the first `n` of `rounds`, each being the events that have arrived since the
/// one before.
pub open spec fn after_rounds(app: AppView, rounds: Seq<Seq<StreamView>>, n: int) -> AppView
    decreases n,
{
    if n <= 0 {
        app
    } else {
        let events = rounds[n - 1];
        drained_spec(
            received_all(after_rounds(app, rounds, n - 1), events, events.len() as int),
            any_shows(events, events.len() as int),
        ).0
    }
}

/// The text that the first `n` of `rounds` bring.
pub open spec fn rounds_text(rounds: Seq<Seq<StreamView>>, n: int) -> Seq<char>
    decreases n,
{
    if n <= 0 {
        Seq::empty()
    } else {
        rounds_text(rounds, n - 1) + tokens_text(rounds[n - 1], rounds[n - 1].len() as int)
    }
}

/// The answer is what was sent, letter for letter, however the text was cut into pieces and
/// however long it waited: as long as it is being written before each round, no other answer
/// starts and no error comes, it has got all of the text once nothing waits any more.
pub proof fn law_answer_is_what_was_sent(
    app: AppView,
    rounds: Seq<Seq<StreamView>>,
    n: int,
    k: int,
)
    requires
        0 <= n <= rounds.len(),
        app.stream_pending_err is None,
        forall|i: int|
            0 <= i < n ==> last_open_text((#[trigger] after_rounds(app, rounds, i)).messages)
                == Some(k),
        forall|i: int, j: int|
            0 <= i < n && 0 <= j < rounds[i].len() ==> keeps_answer(#[trigger] rounds[i][j]),
        forall|i: int| 0 <= i < n ==> all_whole(#[trigger] rounds[i]),
    ensures
        after_rounds(app, rounds, n).stream_pending_err is None,
        answer_text(after_rounds(app, rounds, n), k) == answer_text(app, k) + rounds_text(rounds, n),
        after_rounds(app, rounds, n).grapheme_queue.len() == 0 ==> after_rounds(
            app,
            rounds,
            n,
        ).messages[k].content == answer_text(app, k) + rounds_text(rounds, n),
    decreases n,
{
    if n > 0 {
        law_answer_is_what_was_sent(app, rounds, n - 1, k);
        let before = after_rounds(app, rounds, n - 1);
        let events = rounds[n - 1];
        let queued = received_all(before, events, events.len() as int);
        assert forall|j: int| 0 <= j < events.len() implies keeps_answer(#[trigger] events[j]) by {
            assert(keeps_answer(rounds[n - 1][j]));
        }
        lemma_received_keeps_text(before, events, events.len() as int, k);
        law_drain_keeps_text(queued, any_shows(events, events.len() as int));
        lemma_release_keeps_err(queued, release_count(queued.grapheme_queue.len()));
    }
    let after = after_rounds(app, rounds, n);
    assert(answer_text(after, k) =~= answer_text(app, k) + rounds_text(rounds, n));
    if after.grapheme_queue.len() == 0 {
        assert(answer_text(after, k) =~= after.messages[k].content);
    }
}

/// What the stream leaves alone: all that the user controls.
pub open spec fn same_controls(a: AppView, b: AppView) -> bool {
    &&& a.mode == b.mode
    &&& a.input == b.input
    &&& a.input_cursor == b.input_cursor
    &&& a.scroll_offset == b.scroll_offset
    &&& a.available_models == b.available_models
    &&& a.model_index == b.model_index
    &&& a.selection == b.selection
    &&& a.attachment_picker_index == b.attachment_picker_index
}

proof fn lemma_received_leaves_controls(app: AppView, events: Seq<StreamView>, n: int)
    ensures
        same_controls(app, received_all(app, events, n)),
    decreases n,
{
    if n > 0 {
        lemma_received_leaves_controls(app, events, n - 1);
    }
}

proof fn lemma_release_leaves_controls(app: AppView, n: nat)
    ensures
        same_controls(app, released_spec(app, n)),
    decreases n,
{
    if n > 0 && app.grapheme_queue.len() > 0 {
        lemma_release_leaves_controls(released_one(app), (n - 1) as nat);
    }
}

/// The stream touches nothing that the user controls: the mode, the input and its cursor, the
/// scroll position, the model, the selection and the pickers. What holds of every state holds of
/// it afterwards too.
pub proof fn law_stream_leaves_controls(app: AppView, events: Seq<StreamView>, shows: bool)
    ensures
        ({
            let after = drained_spec(received_all(app, events, events.len() as int), shows).0;
            same_controls(app, after) && (app.wf() ==> after.wf())
        }),
{
    let queued = received_all(app, events, events.len() as int);
    lemma_received_leaves_controls(app, events, events.len() as int);
    lemma_release_leaves_controls(queued, release_count(queued.grapheme_queue.len()));
}

/// Every round shows at least one grapheme while some wait, so that the end of the stream is
/// reached.
pub proof fn law_rounds_make_progress(app: AppView, shows: bool)
    requires
        app.grapheme_queue.len() > 0,
    ensures
        drained_spec(app, shows).0.grapheme_queue.len() < app.grapheme_queue.len(),
        drained_spec(app, shows).1.changed,
{
    lemma_release_shortens(app, release_count(app.grapheme_queue.len()));
}

proof fn lemma_release_shortens(app: AppView, n: nat)
    ensures
        released_spec(app, n).grapheme_queue.len() <= app.grapheme_queue.len(),
        n > 0 && app.grapheme_queue.len() > 0 ==> released_spec(app, n).grapheme_queue.len()
            < app.grapheme_queue.len(),
    decreases n,
{
    if n > 0 && app.grapheme_queue.len() > 0 {
        lemma_release_shortens(released_one(app), (n - 1) as nat);
    }
}

/// Once the stream is over and nothing waits any more, the round ends it: the answer is complete,
/// no error is pending, input is taken again and the conversation is saved.
pub proof fn law_finished_stream_ends(app: AppView, shows: bool)
    requires
        app.grapheme_queue.len() == 0,
        app.stream_pending_done || app.stream_pending_err is Some,
    ensures
        ({
            let (shown, drained) = drained_spec(app, shows);
            &&& drained.save && drained.changed
            &&& !shown.is_streaming && !shown.stream_pending_done
            &&& shown.stream_pending_err is None
            &&& app.stream_pending_err matches Some(e) ==> shown.messages.last().content
                == "[error: "@ + e + "]"@ && shown.messages.last().complete
        }),
{
    let released = released_spec(app, release_count(0));
    assert(released == app);
}

/// The tool call that an end is about is the last one that has not ended, and the text that grows
/// is the last one that is not complete: where `k` is such a message and none behind it is, it is
/// the one.
pub proof fn law_last_open_message(messages: Seq<MessageView>, k: int)
    requires
        0 <= k < messages.len(),
        !messages[k].complete,
        forall|j: int|
            k < j < messages.len() ==> (#[trigger] messages[j]).complete || (messages[j].tool_name is Some)
                != (messages[k].tool_name is Some),
    ensures
        messages[k].tool_name is Some ==> last_open_tool(messages) == Some(k),
        messages[k].tool_name is None ==> last_open_text(messages) == Some(k),
    decreases messages.len(),
{
    if k < messages.len() - 1 {
        let front = messages.drop_last();
        assert(messages[messages.len() - 1] == messages.last());
        assert forall|j: int| k < j < front.len() implies (#[trigger] front[j]).complete || (
        front[j].tool_name is Some) != (front[k].tool_name is Some) by {
            assert(front[j] == messages[j]);
        }
        law_last_open_message(front, k);
    }
}

/// Text goes to the end of the text that is not complete yet, and to nothing else; where there is
/// none, no message changes.
pub proof fn law_text_goes_to_the_open_answer(messages: Seq<MessageView>, k: int, text: Seq<char>)
    ensures
        0 <= k < messages.len() && !messages[k].complete && messages[k].tool_name is None && (
        forall|j: int|
            k < j < messages.len() ==> (#[trigger] messages[j]).complete
                || messages[j].tool_name is Some) ==> ({
            let grown = append_text(messages, text);
            let closed = close_text(messages);
            &&& grown.len() == messages.len() && closed.len() == messages.len()
            &&& grown[k].content == messages[k].content + text
            &&& grown[k] == (MessageView { content: grown[k].content, ..messages[k] })
            &&& closed[k] == (MessageView { complete: true, ..messages[k] })
            &&& forall|j: int|
                0 <= j < messages.len() && j != k ==> #[trigger] grown[j] == messages[j]
            &&& forall|j: int|
                0 <= j < messages.len() && j != k ==> #[trigger] closed[j] == messages[j]
        }),
        (forall|j: int|
            0 <= j < messages.len() ==> (#[trigger] messages[j]).complete
                || messages[j].tool_name is Some) ==> append_text(messages, text) == messages
            && close_text(messages) == messages,
{
    if 0 <= k < messages.len() && !messages[k].complete && messages[k].tool_name is None && (
    forall|j: int|
        k < j < messages.len() ==> (#[trigger] messages[j]).complete
            || messages[j].tool_name is Some) {
        law_last_open_message(messages, k);
    }
    if forall|j: int|
        0 <= j < messages.len() ==> (#[trigger] messages[j]).complete
            || messages[j].tool_name is Some {
        lemma_none_open(messages);
    }
}

proof fn lemma_none_open(messages: Seq<MessageView>)
    ensures
        (forall|j: int|
            0 <= j < messages.len() ==> (#[trigger] messages[j]).complete
                || messages[j].tool_name is Some) ==> last_open_text(messages) is None,
        (forall|j: int|
            0 <= j < messages.len() ==> (#[trigger] messages[j]).complete
                || messages[j].tool_name is None) ==> last_open_tool(messages) is None,
    decreases messages.len(),
{
    if messages.len() > 0 {
        let front = messages.drop_last();
        lemma_none_open(front);
        assert(messages[messages.len() - 1] == messages.last());
        if forall|j: int|
            0 <= j < messages.len() ==> (#[trigger] messages[j]).complete
                || messages[j].tool_name is Some {
            assert forall|j: int| 0 <= j < front.len() implies (#[trigger] front[j]).complete
                || front[j].tool_name is Some by {
                assert(front[j] == messages[j]);
            }
        }
        if forall|j: int|
            0 <= j < messages.len() ==> (#[trigger] messages[j]).complete
                || messages[j].tool_name is None {
            assert forall|j: int| 0 <= j < front.len() implies (#[trigger] front[j]).complete
                || front[j].tool_name is None by {
                assert(front[j] == messages[j]);
            }
        }
    }
}

/// The end of a tool call closes the last call that is open, with what it gave or the error, and
/// marks a failed one as failed. No other message changes.
pub proof fn law_tool_ends(messages: Seq<MessageView>, k: int, content: Seq<char>, failed: bool)
    requires
        0 <= k < messages.len(),
        !messages[k].complete,
        messages[k].tool_name is Some,
        forall|j: int|
            k < j < messages.len() ==> (#[trigger] messages[j]).complete
                || messages[j].tool_name is None,
    ensures
        ({
            let after = finish_tool(messages, content, failed);
            &&& after.len() == messages.len()
            &&& after[k].complete
            &&& after[k].content == content
            &&& failed ==> after[k].tool_failed
            &&& !failed ==> after[k].tool_failed == messages[k].tool_failed
            &&& after[k].tool_name == messages[k].tool_name && after[k].tool_args
                == messages[k].tool_args
            &&& forall|j: int|
                0 <= j < messages.len() && j != k ==> #[trigger] after[j] == messages[j]
        }),
{
    law_last_open_message(messages, k);
}

/// What each event does: a new answer starts empty, text waits behind the text that waits
/// already, a tool call is shown with its name and arguments, its end is noted at it, a question
/// waits for the user, and the end of the stream waits until all text is shown.
pub proof fn law_events(app: AppView, event: StreamView)
    ensures
        ({
            let after = received_spec(app, event);
            match event {
                StreamView::AssistantStart => after.messages.len() == app.messages.len() + 1
                    && after.messages.drop_last() == app.messages && ({
                    let m = after.messages.last();
                    m.role == Role::Assistant && m.content.len() == 0 && !m.complete
                        && !m.is_context && m.tool_name is None
                }) && after.grapheme_queue == app.grapheme_queue,
                StreamView::Token(t) => after.messages == app.messages && after.grapheme_queue
                    == app.grapheme_queue + graphemes_spec(t) && after.stream_open
                    == app.stream_open,
                StreamView::ToolStart { name, args_preview } => after.messages.len()
                    == app.messages.len() + 1 && after.messages.drop_last() == app.messages && ({
                    let m = after.messages.last();
                    m.tool_name == Some(name) && m.tool_args == Some(args_preview) && !m.complete
                        && !m.tool_failed && !m.is_context && m.content.len() == 0
                }),
                StreamView::ToolDone { result_preview } => after.messages == finish_tool(
                    app.messages,
                    result_preview,
                    false,
                ),
                StreamView::ToolFailed { error } => after.messages == finish_tool(
                    app.messages,
                    error,
                    true,
                ),
                StreamView::ApprovalRequired { summary } => after.pending_approval == Some(summary)
                    && after.messages == app.messages,
                StreamView::Done => !after.stream_open && after.stream_pending_done
                    && after.messages == app.messages && after.is_streaming == app.is_streaming
                    && after.grapheme_queue == app.grapheme_queue,
                StreamView::Failed(e) => !after.stream_open && after.stream_pending_err == Some(e)
                    && after.messages == app.messages && after.is_streaming == app.is_streaming
                    && after.grapheme_queue == app.grapheme_queue,
            }
        }),
        event is ApprovalRequired || received_spec(app, event).pending_approval
            == app.pending_approval,
        event is Done || event is Failed || received_spec(app, event).stream_open
            == app.stream_open,
{
    if event is AssistantStart || event is ToolStart {
        assert(received_spec(app, event).messages.drop_last() =~= app.messages);
    }
}

/// How fast waiting text is shown: the longer the queue, the more of it at once, and what is
/// shown is its front, in order.
pub proof fn law_pace(app: AppView)
    ensures
        ({
            let waiting = app.grapheme_queue.len();
            let pace: nat = if waiting <= 5 {
                1
            } else if waiting <= 30 {
                3
            } else if waiting <= 80 {
                6
            } else {
                12
            };
            &&& release_count(waiting) == pace
            &&& waiting > 0 ==> released_spec(app, release_count(waiting)).grapheme_queue
                == app.grapheme_queue.skip(pace as int)
        }),
{
    let waiting = app.grapheme_queue.len();
    let pace = release_count(waiting);
    if waiting >= pace {
        lemma_released_queue(app, pace);
    }
}

proof fn lemma_released_queue(app: AppView, n: nat)
    requires
        n <= app.grapheme_queue.len(),
    ensures
        released_spec(app, n).grapheme_queue == app.grapheme_queue.skip(n as int),
    decreases n,
{
    if n == 0 {
        assert(app.grapheme_queue.skip(0) =~= app.grapheme_queue);
    } else {
        lemma_released_queue(released_one(app), (n - 1) as nat);
        assert(app.grapheme_queue.drop_first().skip(n - 1) =~= app.grapheme_queue.skip(n as int));
    }
}

/// What went wrong is shown: an answer that had begun is replaced by the error, otherwise the
/// error is a message of its own. Every other message stays, and the stream is over.
pub proof fn law_errors_are_shown(app: AppView, e: Seq<char>)
    requires
        app.stream_pending_err == Some(e),
    ensures
        ({
            let after = finished_spec(app);
            let n = app.messages.len();
            let begun = n > 0 && !app.messages.last().complete && app.messages.last().tool_name is None;
            &&& !after.is_streaming && after.stream_pending_err is None
            &&& after.messages.last().content == "[error: "@ + e + "]"@
            &&& after.messages.last().complete
            &&& begun ==> after.messages.len() == n && after.messages.drop_last()
                == app.messages.drop_last() && after.messages.last().role
                == app.messages.last().role
            &&& !begun ==> after.messages.drop_last() == app.messages
                && after.messages.last().role == Role::Assistant
                && !after.messages.last().is_context && after.messages.last().tool_name is None
        }),
{
    let after = finished_spec(app);
    let n = app.messages.len();
    if n > 0 && !app.messages.last().complete && app.messages.last().tool_name is None {
        assert(after.messages.drop_last() =~= app.messages.drop_last());
    } else {
        assert(after.messages.drop_last() =~= app.messages);
    }
}

/// A stream that ended well closes its answer as it is, and is over; it ends only when no text is
/// waiting any more.
pub proof fn law_streams_end(queued: AppView, shows: bool)
    ensures
        ({
            let (after, drained) = drained_spec(queued, shows);
            let released = released_spec(queued, release_count(queued.grapheme_queue.len()));
            let over = released.grapheme_queue.len() == 0 && (queued.stream_pending_done
                || queued.stream_pending_err is Some);
            &&& drained.save == over
            &&& over && queued.stream_pending_err is None ==> after.messages == close_text(
                released.messages,
            ) && !after.is_streaming && !after.stream_pending_done
            &&& !over ==> after.messages == released.messages && after.is_streaming
                == queued.is_streaming
            &&& after.grapheme_queue == released.grapheme_queue
            &&& drained.changed == (shows || queued.grapheme_queue.len() > 0 || over)
            &&& drained.changed ==> after.display_lines_dirty
            &&& !drained.changed ==> after == queued
        }),
{
    lemma_release_keeps_rest(queued, release_count(queued.grapheme_queue.len()));
    if queued.grapheme_queue.len() == 0 {
        assert(released_spec(queued, release_count(0)) == queued);
    }
}

proof fn lemma_release_keeps_rest(app: AppView, n: nat)
    ensures
        ({
            let after = released_spec(app, n);
            after == (AppView {
                messages: after.messages,
                grapheme_queue: after.grapheme_queue,
                ..app
            })
        }),
    decreases n,
{
    if n > 0 && app.grapheme_queue.len() > 0 {
        lemma_release_keeps_rest(released_one(app), (n - 1) as nat);
    }
}

/// Which events show at once, and behind which no further event is taken for now: text and the
/// end of a stream wait, and a question and the end stop.
pub proof fn law_kinds_of_events(event: StreamView)
    ensures
        event.shows() <==> event is AssistantStart || event is ToolStart || event is ToolDone
            || event is ToolFailed || event is ApprovalRequired,
        event.stops_draining() <==> !(event is AssistantStart || event is Token
            || event is ToolStart || event is ToolDone || event is ToolFailed),
{
}

} // verus!
