//! The state of a chat.

use crate::context::{ContextView, TerminalContext};
use crate::conversation::{
    persisted_messages, persisted_spec, restore_messages, restored_spec, ConversationMeta,
    MetaView, PersistedMessage,
};
use crate::display::{build_display_lines, display_spec, DisplayLine, LineView};
use crate::message::{text_message, Message, MessageView, Role};
use crate::text::{is_control, is_control_spec, split_at_char, str_eq};
use std::collections::VecDeque;
use vstd::prelude::*;

verus! {

// ─── State ───────────────────────────────────────────────────────────────────

/// How far the list of models is known.
pub enum ModelFetch {
    /// The list is being fetched.
    Loading,
    /// `available_models` holds the list.
    Loaded,
    /// The list could not be fetched, for this reason.
    Failed(String),
}

/// What a [`ModelFetch`] holds.
#[verifier::ext_equal]
pub enum FetchView {
    Loading,
    Loaded,
    Failed(Seq<char>),
}

impl DeepView for ModelFetch {
    type V = FetchView;

    open spec fn deep_view(&self) -> FetchView {
        match self {
            ModelFetch::Loading => FetchView::Loading,
            ModelFetch::Loaded => FetchView::Loaded,
            ModelFetch::Failed(e) => FetchView::Failed(e@),
        }
    }
}

/// What the pane shows: the chat, or the list of conversations to resume.
pub enum AppMode {
    Chat,
    ResumePicker { items: Vec<ConversationMeta>, cursor: usize },
}

/// What an [`AppMode`] holds.
#[verifier::ext_equal]
pub enum ModeView {
    Chat,
    ResumePicker { items: Seq<MetaView>, cursor: usize },
}

impl DeepView for AppMode {
    type V = ModeView;

    open spec fn deep_view(&self) -> ModeView {
        match self {
            AppMode::Chat => ModeView::Chat,
            AppMode::ResumePicker { items, cursor } => ModeView::ResumePicker {
                items: items.deep_view(),
                cursor: *cursor,
            },
        }
    }
}

/// The state of a chat.
pub struct App {
    pub mode: AppMode,
    pub messages: Vec<Message>,
    pub input: String,
    /// How many characters of the input stand in front of the cursor.
    pub input_cursor: usize,
    /// Lines scrolled up from the bottom (0 shows the latest messages).
    pub scroll_offset: usize,
    pub is_streaming: bool,
    /// Candidate models, in order.
    pub available_models: Vec<String>,
    /// Index into `available_models` of the model of this session.
    pub model_index: usize,
    pub model_fetch: ModelFetch,
    /// True while the result of the fetch has not come in.
    pub model_fetch_open: bool,
    /// Temporary status shown in the top bar.
    pub model_status_flash: Option<String>,
    /// True while the stream of an answer is open.
    pub stream_open: bool,
    /// Graphemes that have arrived and wait to be shown, one after the other.
    pub grapheme_queue: VecDeque<String>,
    /// Set when the stream has finished while `grapheme_queue` still drains.
    pub stream_pending_done: bool,
    /// The error of a finished stream, shown once the queue is empty.
    pub stream_pending_err: Option<String>,
    pub cols: usize,
    pub rows: usize,
    pub context: TerminalContext,
    /// The lines of the message area, as of the last rebuild.
    pub cached_display_lines: Vec<DisplayLine>,
    /// True when messages or layout changed since the last rebuild.
    pub display_lines_dirty: bool,
    /// Selected text: start row, start column, end row, end column. Rows count the lines of the
    /// message area from its first line, columns those of the terminal.
    pub selection: Option<(usize, usize, usize, usize)>,
    /// True while the mouse is dragging a selection.
    pub selecting: bool,
    /// Where the left button went down. The first movement from there starts a selection.
    pub drag_origin: Option<(usize, usize)>,
    /// Whether the left button was down at the previous mouse event.
    pub left_was_pressed: bool,
    /// What the agent asks the user to allow.
    pub pending_approval: Option<String>,
    /// Id of the active conversation.
    pub active_id: String,
    pub attachment_picker_index: usize,
}

/// What an [`App`] holds.
#[verifier::ext_equal]
pub struct AppView {
    pub mode: ModeView,
    pub messages: Seq<MessageView>,
    pub input: Seq<char>,
    pub input_cursor: usize,
    pub scroll_offset: usize,
    pub is_streaming: bool,
    pub available_models: Seq<Seq<char>>,
    pub model_index: usize,
    pub model_fetch: FetchView,
    pub model_fetch_open: bool,
    pub model_status_flash: Option<Seq<char>>,
    pub stream_open: bool,
    pub grapheme_queue: Seq<Seq<char>>,
    pub stream_pending_done: bool,
    pub stream_pending_err: Option<Seq<char>>,
    pub cols: usize,
    pub rows: usize,
    pub context: ContextView,
    pub cached_display_lines: Seq<LineView>,
    pub display_lines_dirty: bool,
    pub selection: Option<(usize, usize, usize, usize)>,
    pub selecting: bool,
    pub drag_origin: Option<(usize, usize)>,
    pub left_was_pressed: bool,
    pub pending_approval: Option<Seq<char>>,
    pub active_id: Seq<char>,
    pub attachment_picker_index: usize,
}

impl DeepView for App {
    type V = AppView;

    open spec fn deep_view(&self) -> AppView {
        AppView {
            mode: self.mode.deep_view(),
            messages: self.messages.deep_view(),
            input: self.input@,
            input_cursor: self.input_cursor,
            scroll_offset: self.scroll_offset,
            is_streaming: self.is_streaming,
            available_models: self.available_models.deep_view(),
            model_index: self.model_index,
            model_fetch: self.model_fetch.deep_view(),
            model_fetch_open: self.model_fetch_open,
            model_status_flash: self.model_status_flash.deep_view(),
            stream_open: self.stream_open,
            grapheme_queue: self.grapheme_queue.deep_view(),
            stream_pending_done: self.stream_pending_done,
            stream_pending_err: self.stream_pending_err.deep_view(),
            cols: self.cols,
            rows: self.rows,
            context: self.context.deep_view(),
            cached_display_lines: self.cached_display_lines.deep_view(),
            display_lines_dirty: self.display_lines_dirty,
            selection: self.selection,
            selecting: self.selecting,
            drag_origin: self.drag_origin,
            left_was_pressed: self.left_was_pressed,
            pending_approval: self.pending_approval.deep_view(),
            active_id: self.active_id@,
            attachment_picker_index: self.attachment_picker_index,
        }
    }
}

impl AppView {
    /// What holds of every state: the cursor stands within the input, the model is one of the
    /// list (or the list is empty), and the pickers point at one of their entries.
    pub open spec fn wf(self) -> bool {
        &&& self.input_cursor <= self.input.len()
        &&& self.model_index < self.available_models.len() || self.model_index == 0
        &&& self.attachment_picker_index < 3
        &&& self.mode matches ModeView::ResumePicker { items, cursor } ==> cursor < items.len()
    }

    /// The model of the session.
    pub open spec fn current_model(self) -> Seq<char> {
        if self.model_index < self.available_models.len() {
            self.available_models[self.model_index as int]
        } else {
            Seq::empty()
        }
    }

    /// Columns for content: two of the border, two of padding.
    pub open spec fn content_width(self) -> nat {
        if self.cols > 4 {
            (self.cols - 4) as nat
        } else {
            0
        }
    }

    /// Rows of the message area: without both borders, separator and input.
    pub open spec fn msg_area_height(self) -> nat {
        if self.rows > 4 {
            (self.rows - 4) as nat
        } else {
            0
        }
    }

    /// The state with `message` at the end of the conversation.
    pub open spec fn with_message(self, message: MessageView) -> AppView {
        AppView {
            messages: self.messages.push(message),
            display_lines_dirty: true,
            ..self
        }
    }

    /// The state with `text` shown as a message of the interface.
    pub open spec fn with_note(self, text: Seq<char>) -> AppView {
        self.with_message(text_message(Role::Assistant, text, true, true))
    }
}

// ─── Models ──────────────────────────────────────────────────────────────────

/// The first index from `i` on at which `x` stands in `list`.
pub open spec fn position_from(list: Seq<Seq<char>>, x: Seq<char>, i: int) -> Option<int>
    decreases list.len() - i,
{
    if i < 0 || i >= list.len() {
        None
    } else if list[i] == x {
        Some(i)
    } else {
        position_from(list, x, i + 1)
    }
}

/// The index of `x` in `list`, or 0 where it is not there.
pub open spec fn position_or_first(list: Seq<Seq<char>>, x: Seq<char>) -> int {
    match position_from(list, x, 0) {
        Some(i) => i,
        None => 0,
    }
}

/// The index of `x` in `list`, or 0 where it is not there.
pub fn index_of_model(list: &Vec<String>, x: &str) -> (r: usize)
    ensures
        r == position_or_first(list.deep_view(), x@),
        r < list.len() || r == 0,
{
    let ghost all = list.deep_view();
    let mut i: usize = 0;
    while i < list.len()
        invariant
            i <= list.len(),
            all == list.deep_view(),
            position_from(all, x@, 0) == position_from(all, x@, i as int),
        decreases list.len() - i,
    {
        assert(all[i as int] == list@[i as int]@);
        if str_eq(list[i].as_str(), x) {
            return i;
        }
        i += 1;
    }
    0
}

/// Whether a model is another than `x`.
pub open spec fn other_than(x: Seq<char>) -> spec_fn(Seq<char>) -> bool {
    |m: Seq<char>| m != x
}

/// The candidate models: the configured one first, then the others of the curated list.
pub open spec fn candidate_models(chat_model: Seq<char>, choices: Seq<Seq<char>>) -> Seq<
    Seq<char>,
> {
    seq![chat_model] + choices.filter(other_than(chat_model))
}

/// The configured model comes first, and only once, and no choice is lost.
pub proof fn law_configured_model_is_first(chat_model: Seq<char>, choices: Seq<Seq<char>>)
    ensures
        ({
            let models = candidate_models(chat_model, choices);
            &&& models.len() > 0 && models[0] == chat_model
            &&& forall|i: int| 0 < i < models.len() ==> #[trigger] models[i] != chat_model
            &&& forall|m: Seq<char>| choices.contains(m) ==> #[trigger] models.contains(m)
        }),
{
    let rest = choices.filter(other_than(chat_model));
    let models = candidate_models(chat_model, choices);
    assert forall|i: int| 0 < i < models.len() implies #[trigger] models[i] != chat_model by {
        choices.lemma_filter_pred(other_than(chat_model), i - 1);
        assert(models[i] == rest[i - 1]);
    }
    assert forall|m: Seq<char>| choices.contains(m) implies #[trigger] models.contains(m) by {
        if m == chat_model {
            assert(models[0] == m);
        } else {
            let k = choices.index_of(m);
            assert(choices[k] == m);
            choices.lemma_filter_contains(other_than(chat_model), k);
            let j = rest.index_of(m);
            assert(models[j + 1] == m);
        }
    }
}

fn models_from(chat_model: String, choices: &Vec<String>) -> (out: Vec<String>)
    ensures
        out.deep_view() == candidate_models(chat_model@, choices.deep_view()),
{
    let ghost all = choices.deep_view();
    let ghost first = chat_model@;
    let ghost pred = other_than(first);
    let mut out: Vec<String> = Vec::new();
    out.push(chat_model.clone());
    let mut i: usize = 0;
    proof {
        reveal(Seq::filter);
        assert(out.deep_view() =~= seq![first] + all.take(0).filter(pred));
    }
    while i < choices.len()
        invariant
            i <= choices.len(),
            all == choices.deep_view(),
            first == chat_model@,
            pred == other_than(first),
            out.deep_view() == seq![first] + all.take(i as int).filter(pred),
        decreases choices.len() - i,
    {
        let ghost before = out.deep_view();
        proof {
            assert(all[i as int] == choices@[i as int]@);
            assert(all.take(i + 1) =~= all.take(i as int).push(all[i as int]));
            all.take(i as int).lemma_filter_push(all[i as int], pred);
        }
        if !str_eq(choices[i].as_str(), chat_model.as_str()) {
            out.push(choices[i].clone());
            assert(out.deep_view() =~= before.push(all[i as int]));
        }
        assert(out.deep_view() =~= seq![first] + all.take(i + 1).filter(pred));
        i += 1;
    }
    assert(all.take(all.len() as int) =~= all);
    out
}

/// What came of the fetch of the list of models.
pub enum FetchEvent {
    /// Nothing yet.
    Pending,
    Models(Vec<String>),
    Failed(String),
    /// The fetch ended without a result.
    Disconnected,
}

/// What a [`FetchEvent`] holds.
#[verifier::ext_equal]
pub enum FetchEventView {
    Pending,
    Models(Seq<Seq<char>>),
    Failed(Seq<char>),
    Disconnected,
}

impl DeepView for FetchEvent {
    type V = FetchEventView;

    open spec fn deep_view(&self) -> FetchEventView {
        match self {
            FetchEvent::Pending => FetchEventView::Pending,
            FetchEvent::Models(list) => FetchEventView::Models(list.deep_view()),
            FetchEvent::Failed(e) => FetchEventView::Failed(e@),
            FetchEvent::Disconnected => FetchEventView::Disconnected,
        }
    }
}

/// How many models are kept of a fetched list.
pub const MAX_FETCHED_MODELS: usize = 30;

/// The models that are kept of a fetched list.
pub open spec fn kept_models(list: Seq<Seq<char>>) -> Seq<Seq<char>> {
    if list.len() > MAX_FETCHED_MODELS {
        list.take(MAX_FETCHED_MODELS as int)
    } else {
        list
    }
}

/// The state after an event of the fetch. A list brings back the model that was selected last, or
/// else the current one, where it is in the list.
pub open spec fn fetched_spec(
    app: AppView,
    event: FetchEventView,
    last_model: Option<Seq<char>>,
) -> AppView {
    if !app.model_fetch_open {
        app
    } else {
        match event {
            FetchEventView::Pending => app,
            FetchEventView::Models(list) => {
                let saved = match last_model {
                    Some(m) => m,
                    None => app.current_model(),
                };
                AppView {
                    available_models: kept_models(list),
                    model_index: position_or_first(kept_models(list), saved) as usize,
                    model_fetch: FetchView::Loaded,
                    model_fetch_open: false,
                    ..app
                }
            },
            FetchEventView::Failed(e) => AppView {
                model_fetch: FetchView::Failed(e),
                model_fetch_open: false,
                ..app
            },
            FetchEventView::Disconnected => AppView {
                model_fetch: FetchView::Failed("fetch thread disconnected"@),
                model_fetch_open: false,
                ..app
            },
        }
    }
}

// ─── Typing ──────────────────────────────────────────────────────────────────

/// `s` with `inserted` in front of the character with the index `at`.
pub open spec fn inserted_at(s: Seq<char>, at: int, inserted: Seq<char>) -> Seq<char> {
    s.take(at) + inserted + s.skip(at)
}

/// What is left of pasted text: control characters are dropped.
pub open spec fn pasted_spec(text: Seq<char>) -> Seq<char> {
    text.filter(|c: char| !is_control_spec(c))
}

/// The state after a paste. While an answer streams in, the input is not touched.
pub open spec fn paste_spec(app: AppView, text: Seq<char>) -> AppView {
    if app.is_streaming {
        app
    } else {
        AppView {
            input: inserted_at(app.input, app.input_cursor as int, pasted_spec(text)),
            input_cursor: (app.input_cursor + pasted_spec(text).len()) as usize,
            display_lines_dirty: true,
            ..app
        }
    }
}

fn without_controls(text: &str) -> (out: String)
    ensures
        out@ == pasted_spec(text@),
{
    let ghost pred = |c: char| !is_control_spec(c);
    let mut out: String = String::new();
    proof {
        reveal(Seq::filter);
        assert(text@.take(0).filter(pred) =~= Seq::empty());
    }
    for c in it: text.chars()
        invariant
            pred == (|c: char| !is_control_spec(c)),
            out@ == text@.take(it.index()).filter(pred),
            it.seq() == text@,
    {
        proof {
            assert(text@.take(it.index() + 1) =~= text@.take(it.index()).push(c));
            text@.take(it.index()).lemma_filter_push(c, pred);
        }
        if !is_control(c) {
            out.push(c);
        }
    }
    assert(text@.take(text@.len() as int) =~= text@);
    out
}

// ─── The message area ────────────────────────────────────────────────────────

/// How wide the lines of the message area are.
pub open spec fn line_width(app: AppView) -> nat {
    if app.content_width() > 4 {
        app.content_width()
    } else {
        4
    }
}

/// The state with its lines up to date.
pub open spec fn rebuilt_spec(app: AppView) -> AppView {
    if !app.display_lines_dirty {
        app
    } else {
        AppView {
            cached_display_lines: display_spec(app.messages, line_width(app)),
            display_lines_dirty: false,
            ..app
        }
    }
}

/// How long a status is shown in the top bar, in milliseconds.
pub const FLASH_MILLIS: u64 = 1500;

/// How long to wait for input while something moves, in milliseconds.
pub const BUSY_POLL_MILLIS: u64 = 30;

/// How long to wait for input while nothing moves, in milliseconds.
pub const IDLE_POLL_MILLIS: u64 = 500;

/// Whether an answer is still being shown.
pub open spec fn is_draining(app: AppView) -> bool {
    app.is_streaming || app.grapheme_queue.len() > 0 || app.stream_pending_done
}

impl App {
    /// The state at the start. A curated list of models is used as it is; without one only the
    /// configured model is known, and the list is to be fetched. The model that was selected last
    /// is selected again where it is known, and the active conversation is shown.
    pub fn new(
        context: TerminalContext,
        chat_model: String,
        chat_model_choices: Vec<String>,
        cols: usize,
        rows: usize,
        last_model: Option<String>,
        active_id: String,
        history: &Vec<PersistedMessage>,
    ) -> (r: App)
        ensures
            r.deep_view().wf(),
            ({
                let choices = chat_model_choices.deep_view();
                let models = if choices.len() > 0 {
                    candidate_models(chat_model@, choices)
                } else {
                    seq![chat_model@]
                };
                r.deep_view() == (AppView {
                    mode: ModeView::Chat,
                    messages: restored_spec(history.deep_view()),
                    input: Seq::empty(),
                    input_cursor: 0,
                    scroll_offset: 0,
                    is_streaming: false,
                    available_models: models,
                    model_index: (match last_model {
                        Some(m) => position_or_first(models, m@),
                        None => 0,
                    }) as usize,
                    model_fetch: if choices.len() > 0 {
                        FetchView::Loaded
                    } else {
                        FetchView::Loading
                    },
                    model_fetch_open: choices.len() == 0,
                    model_status_flash: None,
                    stream_open: false,
                    grapheme_queue: Seq::empty(),
                    stream_pending_done: false,
                    stream_pending_err: None,
                    cols,
                    rows,
                    context: context.deep_view(),
                    cached_display_lines: Seq::empty(),
                    display_lines_dirty: true,
                    selection: None,
                    selecting: false,
                    drag_origin: None,
                    left_was_pressed: false,
                    pending_approval: None,
                    active_id: active_id@,
                    attachment_picker_index: 0,
                })
            }),
    {
        let ghost choices = chat_model_choices.deep_view();
        let curated: bool = chat_model_choices.len() > 0;
        let available_models: Vec<String> = if curated {
            models_from(chat_model, &chat_model_choices)
        } else {
            let mut only: Vec<String> = Vec::new();
            let ghost first = chat_model@;
            only.push(chat_model);
            assert(only.deep_view() =~= seq![first]);
            only
        };
        let model_fetch: ModelFetch = if curated {
            ModelFetch::Loaded
        } else {
            ModelFetch::Loading
        };
        let model_index: usize = match &last_model {
            Some(last) => index_of_model(&available_models, last.as_str()),
            None => 0,
        };
        let r: App = App {
            mode: AppMode::Chat,
            messages: restore_messages(history),
            input: String::new(),
            input_cursor: 0,
            scroll_offset: 0,
            is_streaming: false,
            available_models,
            model_index,
            model_fetch,
            model_fetch_open: !curated,
            model_status_flash: None,
            stream_open: false,
            grapheme_queue: VecDeque::new(),
            stream_pending_done: false,
            stream_pending_err: None,
            cols,
            rows,
            context,
            cached_display_lines: Vec::new(),
            display_lines_dirty: true,
            selection: None,
            selecting: false,
            drag_origin: None,
            left_was_pressed: false,
            pending_approval: None,
            active_id,
            attachment_picker_index: 0,
        };
        proof {
            assert(choices.len() == chat_model_choices@.len());
            assert(r.grapheme_queue.deep_view() =~= Seq::empty());
            assert(r.cached_display_lines.deep_view() =~= Seq::empty());
        }
        r
    }

    /// The model of the session.
    pub fn current_model(&self) -> (r: String)
        ensures
            r@ == self.deep_view().current_model(),
    {
        assert(self.available_models.deep_view().len() == self.available_models@.len());
        if self.model_index < self.available_models.len() {
            self.available_models[self.model_index].clone()
        } else {
            String::new()
        }
    }

    /// Take in what came of the fetch of the list of models. Returns whether there is something
    /// new to show.
    pub fn drain_model_fetch(&mut self, event: FetchEvent, last_model: Option<String>) -> (r: bool)
        requires
            old(self).deep_view().wf(),
        ensures
            final(self).deep_view() == fetched_spec(
                old(self).deep_view(),
                event.deep_view(),
                last_model.deep_view(),
            ),
            final(self).deep_view().wf(),
            r == (old(self).model_fetch_open && !(event is Pending)),
    {
        if !self.model_fetch_open {
            return false;
        }
        match event {
            FetchEvent::Pending => false,
            FetchEvent::Models(list) => {
                let mut list: Vec<String> = list;
                let ghost given = list.deep_view();
                if list.len() > MAX_FETCHED_MODELS {
                    list.truncate(MAX_FETCHED_MODELS);
                }
                assert(list.deep_view() =~= kept_models(given));
                let saved: String = match last_model {
                    Some(m) => m,
                    None => self.current_model(),
                };
                let restored_idx: usize = index_of_model(&list, saved.as_str());
                self.available_models = list;
                self.model_index = restored_idx;
                self.model_fetch = ModelFetch::Loaded;
                self.model_fetch_open = false;
                true
            },
            FetchEvent::Failed(e) => {
                self.model_fetch = ModelFetch::Failed(e);
                self.model_fetch_open = false;
                true
            },
            FetchEvent::Disconnected => {
                self.model_fetch = ModelFetch::Failed("fetch thread disconnected".to_string());
                self.model_fetch_open = false;
                true
            },
        }
    }

    /// Show a message at the end of the conversation.
    pub fn push_message(&mut self, message: Message)
        ensures
            final(self).deep_view() == old(self).deep_view().with_message(message.deep_view()),
    {
        let ghost before = self.messages.deep_view();
        let ghost view = message.deep_view();
        self.messages.push(message);
        self.display_lines_dirty = true;
        assert(self.messages.deep_view() =~= before.push(view));
    }

    /// Show a text of the interface, which is not sent to the model.
    pub fn push_note(&mut self, text: &str)
        ensures
            final(self).deep_view() == old(self).deep_view().with_note(text@),
    {
        self.push_message(Message::text(Role::Assistant, text.to_string(), true, true));
    }

    /// Greet the user. The greeting is shown only, not sent to the model.
    pub fn welcome(&mut self)
        ensures
            final(self).deep_view() == old(self).deep_view().with_note(
                "Hello! I'm your Kaku AI assistant. How can I help you today?"@,
            ),
    {
        self.push_note("Hello! I'm your Kaku AI assistant. How can I help you today?");
    }

    /// Bring the lines of the message area up to date.
    pub fn rebuild_display_cache(&mut self)
        ensures
            final(self).deep_view() == rebuilt_spec(old(self).deep_view()),
    {
        if !self.display_lines_dirty {
            return;
        }
        let content_width: usize = self.content_width();
        let w: usize = if content_width > 4 {
            content_width
        } else {
            4
        };
        self.cached_display_lines = build_display_lines(&self.messages, w);
        self.display_lines_dirty = false;
    }

    /// Columns for content.
    pub fn content_width(&self) -> (r: usize)
        ensures
            r == self.deep_view().content_width(),
    {
        self.cols.saturating_sub(4)
    }

    /// Rows of the message area.
    pub fn msg_area_height(&self) -> (r: usize)
        ensures
            r == self.deep_view().msg_area_height(),
    {
        self.rows.saturating_sub(4)
    }

    /// The lines of the message area, as of the last [`App::rebuild_display_cache`].
    pub fn display_lines(&self) -> (r: &Vec<DisplayLine>)
        ensures
            r.deep_view() == self.deep_view().cached_display_lines,
    {
        &self.cached_display_lines
    }

    /// What is kept of the conversation.
    pub fn collect_persisted_messages(&self) -> (r: Vec<PersistedMessage>)
        ensures
            r.deep_view() == persisted_spec(self.deep_view().messages),
    {
        persisted_messages(&self.messages)
    }

    /// Insert text at the cursor, and put the cursor behind it.
    pub fn insert_text(&mut self, text: &str)
        requires
            old(self).deep_view().wf(),
        ensures
            final(self).deep_view() == (AppView {
                input: inserted_at(
                    old(self).deep_view().input,
                    old(self).input_cursor as int,
                    text@,
                ),
                input_cursor: (old(self).input_cursor + text@.len()) as usize,
                ..old(self).deep_view()
            }),
            old(self).input_cursor + text@.len() <= usize::MAX,
            final(self).deep_view().wf(),
    {
        let ghost given = self.input@;
        let (front, back) = split_at_char(self.input.as_str(), self.input_cursor);
        let mut out: String = front.to_string();
        out.append(text);
        let cursor: usize = out.as_str().unicode_len();
        out.append(back);
        assert(out@ =~= inserted_at(given, self.input_cursor as int, text@));
        self.input = out;
        self.input_cursor = cursor;
    }

    /// Take in pasted text, which is also how composed text of an input method arrives. Returns
    /// whether there is something new to show.
    pub fn paste(&mut self, text: &str) -> (r: bool)
        requires
            old(self).deep_view().wf(),
        ensures
            final(self).deep_view() == paste_spec(old(self).deep_view(), text@),
            final(self).deep_view().wf(),
            r == !old(self).is_streaming,
    {
        if self.is_streaming {
            return false;
        }
        let kept: String = without_controls(text);
        self.insert_text(kept.as_str());
        self.display_lines_dirty = true;
        true
    }

    /// Take in a new size of the pane.
    pub fn resize(&mut self, cols: usize, rows: usize)
        ensures
            final(self).deep_view() == (AppView {
                cols,
                rows,
                display_lines_dirty: true,
                ..old(self).deep_view()
            }),
    {
        self.cols = cols;
        self.rows = rows;
        self.display_lines_dirty = true;
    }

    /// Take the status out of the top bar once it has been there for `elapsed_millis` and that is
    /// long enough. Returns whether it went.
    pub fn expire_flash(&mut self, elapsed_millis: u64) -> (r: bool)
        ensures
            r == (old(self).model_status_flash is Some && elapsed_millis >= FLASH_MILLIS),
            r ==> final(self).deep_view() == (AppView {
                model_status_flash: None,
                ..old(self).deep_view()
            }),
            !r ==> final(self).deep_view() == old(self).deep_view(),
    {
        if self.model_status_flash.is_some() && elapsed_millis >= FLASH_MILLIS {
            self.model_status_flash = None;
            true
        } else {
            false
        }
    }

    /// How long to wait for input, in milliseconds: short while an answer comes in, the list of
    /// models is fetched or a status is shown.
    pub fn poll_timeout_millis(&self) -> (r: u64)
        ensures
            r == (if is_draining(self.deep_view()) || self.deep_view().model_status_flash is Some
                || self.deep_view().model_fetch is Loading {
                BUSY_POLL_MILLIS
            } else {
                IDLE_POLL_MILLIS
            }),
    {
        let loading: bool = match self.model_fetch {
            ModelFetch::Loading => true,
            _ => false,
        };
        if self.redraws_when_idle() || self.model_status_flash.is_some() || loading {
            BUSY_POLL_MILLIS
        } else {
            IDLE_POLL_MILLIS
        }
    }

    /// Whether the pane is drawn again although no input came.
    pub fn redraws_when_idle(&self) -> (r: bool)
        ensures
            r == is_draining(self.deep_view()),
    {
        assert(self.grapheme_queue.deep_view().len() == self.grapheme_queue@.len());
        self.is_streaming || self.grapheme_queue.len() > 0 || self.stream_pending_done
    }
}

// ─── Laws ────────────────────────────────────────────────────────────────────

/// The index of a model is that of its first place in the list, and the first where it has none.
pub proof fn law_model_positions(list: Seq<Seq<char>>, x: Seq<char>, k: int)
    ensures
        0 <= k < list.len() && list[k] == x && (forall|j: int|
            0 <= j < k ==> #[trigger] list[j] != x) ==> position_or_first(list, x) == k,
        !list.contains(x) ==> position_or_first(list, x) == 0,
        list.contains(x) ==> 0 <= position_or_first(list, x) < list.len() && list[position_or_first(
            list,
            x,
        )] == x,
{
    lemma_position(list, x, 0);
    if 0 <= k < list.len() && list[k] == x && (forall|j: int|
        0 <= j < k ==> #[trigger] list[j] != x) {
        assert(list.contains(x));
        let i = position_or_first(list, x);
        if i > k {
            assert(list[k] != x);
        }
    }
}

proof fn lemma_position(list: Seq<Seq<char>>, x: Seq<char>, i: int)
    requires
        0 <= i,
    ensures
        match position_from(list, x, i) {
            Some(k) => i <= k < list.len() && list[k] == x && forall|j: int|
                i <= j < k ==> #[trigger] list[j] != x,
            None => forall|j: int| i <= j < list.len() ==> #[trigger] list[j] != x,
        },
    decreases list.len() - i,
{
    if i < list.len() && list[i] != x {
        lemma_position(list, x, i + 1);
    }
}

/// A fetched list replaces the list of models by its first thirty, and the chosen model is the
/// one that was selected last, or else the current one, as far as the list has it; otherwise the
/// first. A failed fetch keeps the models and says why.
pub proof fn law_fetched_models(
    app: AppView,
    list: Seq<Seq<char>>,
    last_model: Option<Seq<char>>,
    e: Seq<char>,
)
    requires
        app.model_fetch_open,
        list.len() <= usize::MAX,
    ensures
        ({
            let after = fetched_spec(app, FetchEventView::Models(list), last_model);
            let kept = if list.len() <= 30 {
                list
            } else {
                list.take(30)
            };
            let wanted = match last_model {
                Some(m) => m,
                None => app.current_model(),
            };
            &&& after.available_models == kept
            &&& kept.contains(wanted) ==> after.current_model() == wanted
            &&& !kept.contains(wanted) ==> after.model_index == 0
            &&& after.model_fetch is Loaded && !after.model_fetch_open
        }),
        ({
            let after = fetched_spec(app, FetchEventView::Failed(e), last_model);
            &&& after.model_fetch == FetchView::Failed(e) && !after.model_fetch_open
            &&& after.available_models == app.available_models && after.model_index
                == app.model_index
        }),
        fetched_spec(app, FetchEventView::Disconnected, last_model).model_fetch
            == FetchView::Failed("fetch thread disconnected"@),
        !fetched_spec(app, FetchEventView::Disconnected, last_model).model_fetch_open,
        fetched_spec(app, FetchEventView::Pending, last_model) == app,
{
    let kept = kept_models(list);
    let wanted = match last_model {
        Some(m) => m,
        None => app.current_model(),
    };
    law_model_positions(kept, wanted, 0);
}

/// Pasted text goes in at the cursor without its control characters, and the cursor stands behind
/// it; while an answer streams in, nothing is pasted.
pub proof fn law_pasting(app: AppView, text: Seq<char>)
    requires
        app.wf(),
        app.input.len() + text.len() <= usize::MAX,
    ensures
        app.is_streaming ==> paste_spec(app, text) == app,
        !app.is_streaming ==> ({
            let after = paste_spec(app, text);
            let k = app.input_cursor as int;
            &&& after.input.take(k) == app.input.take(k)
            &&& after.input.skip(after.input_cursor as int) == app.input.skip(k)
            &&& after.input.subrange(k, after.input_cursor as int) == pasted_spec(text)
            &&& (forall|i: int| 0 <= i < text.len() ==> !is_control_spec(#[trigger] text[i]))
                ==> after.input.subrange(k, after.input_cursor as int) == text
        }),
{
    let pasted = pasted_spec(text);
    let pred = |c: char| !is_control_spec(c);
    lemma_pasted(text);
    if !app.is_streaming {
        let after = paste_spec(app, text);
        let k = app.input_cursor as int;
        assert(after.input.take(k) =~= app.input.take(k));
        assert(after.input_cursor == k + pasted.len());
        assert(after.input.skip(k + pasted.len()) =~= app.input.skip(k));
        assert(after.input.subrange(k, k + pasted.len()) =~= pasted);
    }
}

proof fn lemma_pasted(text: Seq<char>)
    ensures
        pasted_spec(text).len() <= text.len(),
        (forall|i: int| 0 <= i < text.len() ==> !is_control_spec(#[trigger] text[i]))
            ==> pasted_spec(text) == text,
    decreases text.len(),
{
    let pred = |c: char| !is_control_spec(c);
    reveal(Seq::filter);
    if text.len() > 0 {
        let front = text.drop_last();
        lemma_pasted(front);
        assert(front.push(text.last()) =~= text);
        front.lemma_filter_push(text.last(), pred);
        if forall|i: int| 0 <= i < text.len() ==> !is_control_spec(#[trigger] text[i]) {
            assert(!is_control_spec(text[text.len() - 1]));
            assert forall|i: int| 0 <= i < front.len() implies !is_control_spec(
                #[trigger] front[i],
            ) by {
                assert(!is_control_spec(text[i]));
            }
        }
    } else {
        assert(text =~= Seq::empty());
        assert(pasted_spec(text) =~= Seq::empty());
    }
}

/// Every pasted character stays or goes on its own: a control character goes, any other stays,
/// wherever it stands.
pub proof fn law_pasted_characters(text: Seq<char>, c: char)
    ensures
        pasted_spec(text.push(c)) == (if c as u32 <= 0x1f || 0x7f <= c as u32 <= 0x9f {
            pasted_spec(text)
        } else {
            pasted_spec(text).push(c)
        }),
{
    let pred = |c: char| !is_control_spec(c);
    text.lemma_filter_push(c, pred);
}

/// The lines are laid out anew where something has changed, in the columns that are left of the
/// pane without its borders and their padding, and at least in four.
pub proof fn law_lines_are_rebuilt(app: AppView)
    ensures
        !app.display_lines_dirty ==> rebuilt_spec(app) == app,
        app.display_lines_dirty ==> ({
            let after = rebuilt_spec(app);
            &&& after.cached_display_lines == display_spec(
                app.messages,
                (if app.cols >= 8 {
                    app.cols - 4
                } else {
                    4
                }) as nat,
            )
            &&& !after.display_lines_dirty
            &&& after.messages == app.messages && after.scroll_offset == app.scroll_offset
        }),
{
}

/// An answer is still being shown while it streams in, while text waits, and while its end does;
/// otherwise nothing moves.
pub proof fn law_draining(app: AppView)
    ensures
        !is_draining(app) <==> !app.is_streaming && app.grapheme_queue == Seq::<Seq<char>>::empty()
            && !app.stream_pending_done,
{
    if app.grapheme_queue.len() == 0 {
        assert(app.grapheme_queue =~= Seq::<Seq<char>>::empty());
    }
}

} // verus!
