//! Sending a message, and going from one conversation to another.

use crate::app::{App, AppMode, AppView, ModeView};
use crate::attachment::{
    attachments_spec, law_requested_options, requested_options, requested_spec,
    resolve_input_attachments, resolve_spec, user_message_text, AttachmentOption, DirectoryFacts,
    FactsView,
};
use crate::context::ContextView;
use crate::conversation::{
    persisted_spec, restore_messages, restored_spec, ConversationMeta, MetaView, PersistedMessage,
    PersistedView,
};
use crate::message::{user_message, Message, MessageView, Role};
use crate::picker::{command_label, SlashCommand};
use crate::prompt::{
    api_messages, api_messages_spec, law_last_question_is_sent, ApiMessage, ApiView,
};
use crate::text::{is_blank, law_trim_takes_white_space, str_eq, trim, trim_spec, words_spec};
use vstd::prelude::*;

verus! {

// ─── Sending ─────────────────────────────────────────────────────────────────

/// What the agent is started with.
pub struct TurnRequest {
    pub model: String,
    pub messages: Vec<ApiMessage>,
    pub cwd: String,
}

/// What a [`TurnRequest`] holds.
#[verifier::ext_equal]
pub struct TurnView {
    pub model: Seq<char>,
    pub messages: Seq<ApiView>,
    pub cwd: Seq<char>,
}

impl DeepView for TurnRequest {
    type V = TurnView;

    open spec fn deep_view(&self) -> TurnView {
        TurnView {
            model: self.model@,
            messages: self.messages.deep_view(),
            cwd: self.cwd@,
        }
    }
}

/// What comes of submitting the input.
pub enum Submitted {
    /// There was nothing to submit.
    Nothing,
    /// A command: it is carried out next.
    Command(SlashCommand),
    /// The message cannot be sent as it is, and the user has been told why.
    Rejected,
    /// The message is part of the conversation, and the agent is to be started.
    Sent(TurnRequest),
}

/// What a [`Submitted`] holds.
#[verifier::ext_equal]
pub enum SubmittedView {
    Nothing,
    Command(SlashCommand),
    Rejected,
    Sent(TurnView),
}

impl DeepView for Submitted {
    type V = SubmittedView;

    open spec fn deep_view(&self) -> SubmittedView {
        match self {
            Submitted::Nothing => SubmittedView::Nothing,
            Submitted::Command(c) => SubmittedView::Command(*c),
            Submitted::Rejected => SubmittedView::Rejected,
            Submitted::Sent(turn) => SubmittedView::Sent(turn.deep_view()),
        }
    }
}

/// The command that `input` is.
pub open spec fn command_spec(input: Seq<char>) -> Option<SlashCommand> {
    if trim_spec(input) == command_label(SlashCommand::New) {
        Some(SlashCommand::New)
    } else if trim_spec(input) == command_label(SlashCommand::Resume) {
        Some(SlashCommand::Resume)
    } else {
        None
    }
}

/// The state with an empty input.
pub open spec fn cleared_input(app: AppView) -> AppView {
    AppView { input: Seq::empty(), input_cursor: 0, ..app }
}

/// The state after a message has been sent.
pub open spec fn sent_spec(app: AppView, message: MessageView) -> AppView {
    AppView {
        input: Seq::empty(),
        input_cursor: 0,
        scroll_offset: 0,
        attachment_picker_index: 0,
        messages: app.messages.push(message),
        is_streaming: true,
        display_lines_dirty: true,
        grapheme_queue: Seq::empty(),
        stream_pending_done: false,
        stream_pending_err: None,
        stream_open: true,
        ..app
    }
}

/// What the agent is started with in a state.
pub open spec fn turn_spec(app: AppView) -> TurnView {
    TurnView {
        model: app.current_model(),
        messages: api_messages_spec(app.messages, app.context),
        cwd: app.context.cwd,
    }
}

/// What comes of submitting the input, and the state after it.
pub open spec fn submit_spec(app: AppView, facts: FactsView) -> (AppView, SubmittedView) {
    let raw = trim_spec(app.input);
    if raw.len() == 0 {
        (app, SubmittedView::Nothing)
    } else {
        match command_spec(app.input) {
            Some(command) => (cleared_input(app), SubmittedView::Command(command)),
            None => match resolve_spec(raw, app.context, facts) {
                Err(e) => (app.with_note(e), SubmittedView::Rejected),
                Ok((text, attachments)) => {
                    let sent = sent_spec(app, user_message(text, attachments));
                    (sent, SubmittedView::Sent(turn_spec(sent)))
                },
            },
        }
    }
}

/// Whether the input asks for the working directory.
pub open spec fn wants_directory_spec(input: Seq<char>) -> bool {
    requested_spec(words_spec(trim_spec(input))).contains(AttachmentOption::Cwd)
}

// ─── Another conversation ────────────────────────────────────────────────────

/// A conversation that is left: it gets a title from what was said.
pub struct ArchiveRequest {
    pub id: String,
    pub messages: Vec<PersistedMessage>,
}

/// What an [`ArchiveRequest`] holds.
#[verifier::ext_equal]
pub struct ArchiveView {
    pub id: Seq<char>,
    pub messages: Seq<PersistedView>,
}

impl DeepView for ArchiveRequest {
    type V = ArchiveView;

    open spec fn deep_view(&self) -> ArchiveView {
        ArchiveView { id: self.id@, messages: self.messages.deep_view() }
    }
}

/// What is archived of the conversation, where something has been said.
pub open spec fn archive_spec(app: AppView) -> Option<ArchiveView> {
    let messages = persisted_spec(app.messages);
    if messages.len() == 0 {
        None
    } else {
        Some(ArchiveView { id: app.active_id, messages })
    }
}

/// The state after a new conversation has been started. Where it could not be given an id, the
/// old one stays.
pub open spec fn new_conversation_spec(app: AppView, new_id: Option<Seq<char>>) -> AppView {
    AppView {
        active_id: match new_id {
            Some(id) => id,
            None => app.active_id,
        },
        messages: Seq::empty(),
        scroll_offset: 0,
        ..app
    }.with_note("Started a new conversation. Type /resume to browse previous ones."@)
}

/// All conversations but the active one.
pub open spec fn other_conversations(all: Seq<MetaView>, active_id: Seq<char>) -> Seq<MetaView> {
    all.filter(is_other(active_id))
}

/// Whether a conversation is not the active one.
pub open spec fn is_other(active_id: Seq<char>) -> spec_fn(MetaView) -> bool {
    |m: MetaView| m.id != active_id
}

/// The state after the user has asked for another conversation.
pub open spec fn resume_spec(app: AppView, all: Seq<MetaView>) -> AppView {
    let items = other_conversations(all, app.active_id);
    if items.len() == 0 {
        app.with_note(
            "No other saved conversations. Use /new first to archive the current one."@,
        )
    } else {
        AppView { mode: ModeView::ResumePicker { items, cursor: 0 }, ..app }
    }
}

/// A conversation that is to be loaded.
pub struct LoadRequest {
    pub id: String,
    pub summary: String,
    /// The conversation that is left.
    pub archive: Option<ArchiveRequest>,
}

/// What a [`LoadRequest`] holds.
#[verifier::ext_equal]
pub struct LoadView {
    pub id: Seq<char>,
    pub summary: Seq<char>,
    pub archive: Option<ArchiveView>,
}

impl DeepView for LoadRequest {
    type V = LoadView;

    open spec fn deep_view(&self) -> LoadView {
        LoadView {
            id: self.id@,
            summary: self.summary@,
            archive: self.archive.deep_view(),
        }
    }
}

/// What comes of choosing the entry `idx`, and the state after it.
pub open spec fn choose_spec(app: AppView, idx: int) -> (AppView, Option<LoadView>) {
    match app.mode {
        ModeView::Chat => (app, None),
        ModeView::ResumePicker { items, .. } => {
            let chat = AppView { mode: ModeView::Chat, ..app };
            if 0 <= idx < items.len() {
                (
                    cleared_input(chat),
                    Some(
                        LoadView {
                            id: items[idx].id,
                            summary: items[idx].summary,
                            archive: archive_spec(app),
                        },
                    ),
                )
            } else {
                (chat, None)
            }
        },
    }
}

/// The state after a conversation has been loaded. Where it could not be, the old one stays.
pub open spec fn loaded_spec(
    app: AppView,
    id: Seq<char>,
    summary: Seq<char>,
    loaded: Option<Seq<PersistedView>>,
) -> AppView {
    match loaded {
        Some(history) => AppView {
            active_id: id,
            messages: restored_spec(history),
            scroll_offset: 0,
            ..app
        }.with_note("Resumed: "@ + summary),
        None => AppView { scroll_offset: 0, display_lines_dirty: true, ..app },
    }
}

impl App {
    /// Whether the input asks for the working directory, so that [`App::submit`] needs to know
    /// what it holds.
    pub fn wants_directory(&self) -> (r: bool)
        ensures
            r == wants_directory_spec(self.deep_view().input),
    {
        let options: Vec<AttachmentOption> = requested_options(trim(self.input.as_str()));
        let mut i: usize = 0;
        while i < options.len()
            invariant
                i <= options.len(),
                options@ == requested_spec(words_spec(trim_spec(self.input@))),
                forall|j: int| 0 <= j < i ==> options@[j] != AttachmentOption::Cwd,
            decreases options.len() - i,
        {
            if options[i] == AttachmentOption::Cwd {
                assert(options@[i as int] == AttachmentOption::Cwd);
                return true;
            }
            i += 1;
        }
        false
    }

    /// Submit the input: a command is handed back, a message goes into the conversation and the
    /// agent is to be started. `facts` is what is known of the working directory.
    pub fn submit(&mut self, facts: &DirectoryFacts) -> (r: Submitted)
        requires
            old(self).deep_view().wf(),
        ensures
            (final(self).deep_view(), r.deep_view()) == submit_spec(
                old(self).deep_view(),
                facts.deep_view(),
            ),
            final(self).deep_view().wf(),
    {
        let ghost app = self.deep_view();
        let raw_input: String = trim(self.input.as_str()).to_string();
        if raw_input.as_str().is_empty() {
            return Submitted::Nothing;
        }
        if str_eq(raw_input.as_str(), "/new") {
            self.clear_input();
            return Submitted::Command(SlashCommand::New);
        }
        if str_eq(raw_input.as_str(), "/resume") {
            self.clear_input();
            return Submitted::Command(SlashCommand::Resume);
        }
        match resolve_input_attachments(raw_input.as_str(), &self.context, facts) {
            Err(e) => {
                self.push_note(e.as_str());
                Submitted::Rejected
            },
            Ok((text, attachments)) => {
                self.send(Message::user_text(text, attachments));
                Submitted::Sent(self.turn_request())
            },
        }
    }

    /// Empty the input.
    pub fn clear_input(&mut self)
        ensures
            final(self).deep_view() == cleared_input(old(self).deep_view()),
    {
        self.input = String::new();
        self.input_cursor = 0;
    }

    fn send(&mut self, message: Message)
        ensures
            final(self).deep_view() == sent_spec(old(self).deep_view(), message.deep_view()),
    {
        self.clear_input();
        self.scroll_offset = 0;
        self.attachment_picker_index = 0;
        self.push_message(message);
        self.is_streaming = true;
        self.grapheme_queue.clear();
        self.stream_pending_done = false;
        self.stream_pending_err = None;
        self.stream_open = true;
        assert(self.grapheme_queue.deep_view() =~= Seq::empty());
    }

    fn turn_request(&self) -> (r: TurnRequest)
        ensures
            r.deep_view() == turn_spec(self.deep_view()),
    {
        TurnRequest {
            model: self.current_model(),
            messages: self.build_api_messages(),
            cwd: self.context.cwd.clone(),
        }
    }

    /// All that is sent to the model at the start of a turn.
    pub fn build_api_messages(&self) -> (r: Vec<ApiMessage>)
        ensures
            r.deep_view() == api_messages_spec(
                self.deep_view().messages,
                self.deep_view().context,
            ),
    {
        api_messages(&self.messages, &self.context)
    }

    fn archive_request(&self) -> (r: Option<ArchiveRequest>)
        ensures
            r.deep_view() == archive_spec(self.deep_view()),
    {
        let messages: Vec<PersistedMessage> = self.collect_persisted_messages();
        assert(messages.deep_view().len() == messages@.len());
        if messages.len() == 0 {
            None
        } else {
            Some(ArchiveRequest { id: self.active_id.clone(), messages })
        }
    }

    /// Leave the conversation for a new one. Where nothing has been said yet the user is told so;
    /// otherwise the conversation is to be archived, a new one to be made, and
    /// [`App::finish_new_conversation`] to be called.
    pub fn start_new_conversation(&mut self) -> (r: Option<ArchiveRequest>)
        ensures
            r.deep_view() == archive_spec(old(self).deep_view()),
            final(self).deep_view() == (if archive_spec(old(self).deep_view()) is None {
                old(self).deep_view().with_note(
                    "Nothing to archive yet. Start chatting first."@,
                )
            } else {
                old(self).deep_view()
            }),
    {
        let archive: Option<ArchiveRequest> = self.archive_request();
        if archive.is_none() {
            self.push_note("Nothing to archive yet. Start chatting first.");
        }
        archive
    }

    /// Show the new conversation, whose id is `new_id`.
    pub fn finish_new_conversation(&mut self, new_id: Option<String>)
        ensures
            final(self).deep_view() == new_conversation_spec(
                old(self).deep_view(),
                new_id.deep_view(),
            ),
    {
        if let Some(id) = new_id {
            self.active_id = id;
        }
        self.messages = Vec::new();
        self.scroll_offset = 0;
        assert(self.messages.deep_view() =~= Seq::empty());
        self.push_note("Started a new conversation. Type /resume to browse previous ones.");
    }

    /// Show the conversations to which the user can go back: all but the active one.
    pub fn enter_resume_picker(&mut self, all: &Vec<ConversationMeta>)
        requires
            old(self).deep_view().wf(),
        ensures
            final(self).deep_view() == resume_spec(old(self).deep_view(), all.deep_view()),
            final(self).deep_view().wf(),
    {
        let ghost view = all.deep_view();
        let ghost pred = is_other(self.active_id@);
        let mut items: Vec<ConversationMeta> = Vec::new();
        let mut i: usize = 0;
        proof {
            reveal(Seq::filter);
            assert(items.deep_view() =~= view.take(0).filter(pred));
        }
        while i < all.len()
            invariant
                i <= all.len(),
                view == all.deep_view(),
                pred == is_other(self.active_id@),
                items.deep_view() == view.take(i as int).filter(pred),
            decreases all.len() - i,
        {
            let ghost before = items.deep_view();
            proof {
                assert(view[i as int] == all@[i as int].deep_view());
                assert(view.take(i + 1) =~= view.take(i as int).push(view[i as int]));
                view.take(i as int).lemma_filter_push(view[i as int], pred);
            }
            if !str_eq(all[i].id.as_str(), self.active_id.as_str()) {
                let item: ConversationMeta = all[i].clone();
                items.push(item);
                assert(items.deep_view() =~= before.push(view[i as int]));
            }
            i += 1;
        }
        proof {
            assert(view.take(view.len() as int) =~= view);
            assert(items.deep_view().len() == items@.len());
        }
        if items.len() == 0 {
            self.push_note(
                "No other saved conversations. Use /new first to archive the current one.",
            );
            return;
        }
        self.mode = AppMode::ResumePicker { items, cursor: 0 };
    }

    /// Choose the entry `idx` of the list of conversations. The conversation that comes back is
    /// to be loaded, and [`App::finish_load`] to be called.
    pub fn load_conversation_from_picker(&mut self, idx: usize) -> (r: Option<LoadRequest>)
        requires
            old(self).deep_view().wf(),
        ensures
            (final(self).deep_view(), r.deep_view()) == choose_spec(
                old(self).deep_view(),
                idx as int,
            ),
            final(self).deep_view().wf(),
    {
        let mut mode: AppMode = AppMode::Chat;
        std::mem::swap(&mut mode, &mut self.mode);
        match mode {
            AppMode::Chat => None,
            AppMode::ResumePicker { items, cursor: _ } => {
                assert(items.deep_view().len() == items@.len());
                if idx < items.len() {
                    assert(items.deep_view()[idx as int] == items@[idx as int].deep_view());
                    self.clear_input();
                    Some(
                        LoadRequest {
                            id: items[idx].id.clone(),
                            summary: items[idx].summary.clone(),
                            archive: self.archive_request(),
                        },
                    )
                } else {
                    None
                }
            },
        }
    }

    /// Show the conversation that was to be loaded: its messages, or none where it could not be
    /// read, so that the old one stays.
    pub fn finish_load(
        &mut self,
        id: String,
        summary: &str,
        loaded: Option<Vec<PersistedMessage>>,
    )
        ensures
            final(self).deep_view() == loaded_spec(
                old(self).deep_view(),
                id@,
                summary@,
                loaded.deep_view(),
            ),
    {
        self.scroll_offset = 0;
        match loaded {
            Some(history) => {
                self.active_id = id;
                self.messages = restore_messages(&history);
                let mut note: String = "Resumed: ".to_string();
                note.append(summary);
                self.push_note(note.as_str());
            },
            None => {
                self.display_lines_dirty = true;
            },
        }
    }
}

// ─── Laws ────────────────────────────────────────────────────────────────────

proof fn lemma_facts_do_not_matter(
    options: Seq<AttachmentOption>,
    context: ContextView,
    facts: FactsView,
    other: FactsView,
)
    requires
        !options.contains(AttachmentOption::Cwd),
    ensures
        attachments_spec(options, context, facts) == attachments_spec(options, context, other),
    decreases options.len(),
{
    if options.len() > 0 {
        assert(options.contains(options.last()));
        assert forall|o: AttachmentOption| options.drop_last().contains(o) implies options.contains(
            o,
        ) by {}
        lemma_facts_do_not_matter(options.drop_last(), context, facts, other);
    }
}

/// What the working directory holds matters only where the input asks for it.
pub proof fn law_directory_matters_only_if_wanted(app: AppView, facts: FactsView, other: FactsView)
    requires
        !wants_directory_spec(app.input),
    ensures
        submit_spec(app, facts) == submit_spec(app, other),
{
    lemma_facts_do_not_matter(
        requested_spec(words_spec(trim_spec(app.input))),
        app.context,
        facts,
        other,
    );
}

/// A message that is rejected is not lost: the input and its cursor stay as they were, nothing is
/// sent, and the reason stands at the end of the conversation, where the model does not see it.
pub proof fn law_rejected_input_stays(app: AppView, facts: FactsView)
    requires
        submit_spec(app, facts).1 is Rejected,
    ensures
        ({
            let after = submit_spec(app, facts).0;
            &&& after.input == app.input && after.input_cursor == app.input_cursor
            &&& after.is_streaming == app.is_streaming
            &&& after.messages.drop_last() == app.messages
            &&& after.messages.last().is_context
            &&& resolve_spec(trim_spec(app.input), app.context, facts) == Err::<
                (Seq<char>, Seq<crate::message::AttachmentView>),
                Seq<char>,
            >(after.messages.last().content)
        }),
{
    let e = resolve_spec(trim_spec(app.input), app.context, facts)->Err_0;
    assert(app.messages.push(app.with_note(e).messages.last()).drop_last() =~= app.messages);
}

/// A new conversation starts empty: nothing that was said before is kept in it.
pub proof fn law_new_conversation_is_empty(app: AppView, new_id: Option<Seq<char>>)
    ensures
        archive_spec(new_conversation_spec(app, new_id)) is None,
{
    let after = new_conversation_spec(app, new_id);
    assert(after.messages.drop_last() =~= Seq::empty());
    assert(persisted_spec(after.messages.drop_last()).len() == 0);
}

/// The list of conversations never offers the active one.
pub proof fn law_active_conversation_is_not_offered(app: AppView, all: Seq<MetaView>)
    requires
        resume_spec(app, all).mode is ResumePicker,
        app.mode is Chat,
    ensures
        ({
            let items = resume_spec(app, all).mode->items;
            &&& items.len() > 0
            &&& forall|i: int|
                0 <= i < items.len() ==> (#[trigger] items[i]).id != app.active_id && all.contains(
                    items[i],
                )
        }),
{
    let items = other_conversations(all, app.active_id);
    assert forall|i: int| 0 <= i < items.len() implies (#[trigger] items[i]).id != app.active_id
        && all.contains(items[i]) by {
        all.lemma_filter_pred(is_other(app.active_id), i);
        all.lemma_filter_contains_rev(is_other(app.active_id), items[i]);
    }
}

/// The input is a command exactly where it is `/new` or `/resume`, with white space around it or
/// without.
pub proof fn law_commands(front: Seq<char>, back: Seq<char>, input: Seq<char>)
    requires
        is_blank(front),
        is_blank(back),
    ensures
        command_spec(front + "/new"@ + back) == Some(SlashCommand::New),
        command_spec(front + "/resume"@ + back) == Some(SlashCommand::Resume),
        command_spec(input) is Some <==> trim_spec(input) == "/new"@ || trim_spec(input)
            == "/resume"@,
{
    reveal_strlit("/new");
    reveal_strlit("/resume");
    assert("/new"@.len() == 4 && "/resume"@.len() == 7);
    assert("/new"@[0] == '/' && "/new"@[3] == 'w');
    assert("/resume"@[0] == '/' && "/resume"@[6] == 'e');
    law_trim_takes_white_space(front, "/new"@, back);
    law_trim_takes_white_space(front, "/resume"@, back);
}

/// What is sent: the question of the input with its attachments becomes the last message of the
/// conversation and of the request, to the chosen model; the input is cleared, the newest lines
/// come into view, and the answer is awaited. A blank input does nothing, and a command is not
/// sent.
pub proof fn law_submitting(app: AppView, facts: FactsView)
    ensures
        ({
            let (after, done) = submit_spec(app, facts);
            let raw = trim_spec(app.input);
            let command = raw == "/new"@ || raw == "/resume"@;
            &&& raw.len() == 0 <==> done is Nothing
            &&& done is Nothing ==> after == app
            &&& raw.len() > 0 && command ==> done is Command && after.input.len() == 0
                && after.input_cursor == 0 && after.messages == app.messages
                && after.is_streaming == app.is_streaming
            &&& done matches SubmittedView::Sent(turn) ==> ({
                let m = after.messages.last();
                &&& !command && raw.len() > 0
                &&& after.messages.drop_last() == app.messages
                &&& resolve_spec(raw, app.context, facts) == Ok::<
                    (Seq<char>, Seq<crate::message::AttachmentView>),
                    Seq<char>,
                >((m.content, m.attachments))
                &&& m.role == Role::User && m.complete && !m.is_context && m.tool_name is None
                &&& after.input.len() == 0 && after.input_cursor == 0 && after.scroll_offset == 0
                &&& after.is_streaming && after.stream_open && after.grapheme_queue.len() == 0
                &&& after.stream_pending_err is None && !after.stream_pending_done
                &&& turn.model == app.current_model() && turn.cwd == app.context.cwd
                &&& turn.messages.last() == ApiView::User(
                    user_message_text(m.content, m.attachments),
                )
            })
            &&& raw.len() > 0 && !command ==> (done is Sent <==> resolve_spec(
                raw,
                app.context,
                facts,
            ) is Ok) && (done is Rejected <==> resolve_spec(raw, app.context, facts) is Err)
        }),
{
    let (after, done) = submit_spec(app, facts);
    let raw = trim_spec(app.input);
    reveal_strlit("/new");
    reveal_strlit("/resume");
    assert("/new"@.len() == 4 && "/resume"@.len() == 7);
    if done is Sent {
        let (text, attachments) = resolve_spec(raw, app.context, facts)->Ok_0;
        let m = user_message(text, attachments);
        assert(after.messages.drop_last() =~= app.messages);
        law_last_question_is_sent(app.messages, m, app.context);
    }
}

/// The list of conversations holds every saved one but the active one, in the order in which they
/// are saved, and starts at the first. Where there is none, the chat says so.
pub proof fn law_offered_conversations(app: AppView, all: Seq<MetaView>, more: MetaView)
    ensures
        other_conversations(Seq::empty(), app.active_id).len() == 0,
        other_conversations(all.push(more), app.active_id) == (if more.id == app.active_id {
            other_conversations(all, app.active_id)
        } else {
            other_conversations(all, app.active_id).push(more)
        }),
        ({
            let items = other_conversations(all, app.active_id);
            let after = resume_spec(app, all);
            &&& items.len() > 0 ==> after == (AppView {
                mode: ModeView::ResumePicker { items, cursor: 0 },
                ..app
            })
            &&& items.len() == 0 ==> after.mode == app.mode && after.messages.drop_last()
                == app.messages && after.messages.last().content
                == "No other saved conversations. Use /new first to archive the current one."@
                && after.messages.last().is_context
        }),
{
    all.lemma_filter_push(more, is_other(app.active_id));
    reveal(Seq::filter);
    assert(Seq::<MetaView>::empty().filter(is_other(app.active_id)) =~= Seq::empty());
    let after = resume_spec(app, all);
    if other_conversations(all, app.active_id).len() == 0 {
        assert(after.messages.drop_last() =~= app.messages);
    }
}

/// A conversation that is chosen takes the place of the one that is shown, whose kept messages
/// are saved under its own id first.
pub proof fn law_loading(
    app: AppView,
    items: Seq<MetaView>,
    cursor: usize,
    history: Seq<PersistedView>,
)
    requires
        app.mode == (ModeView::ResumePicker { items, cursor }),
        cursor < items.len(),
    ensures
        ({
            let (chat, request) = choose_spec(app, cursor as int);
            let item = items[cursor as int];
            &&& request matches Some(load) && load.id == item.id && load.summary == item.summary
                && (persisted_spec(app.messages).len() > 0 ==> load.archive == Some(
                ArchiveView { id: app.active_id, messages: persisted_spec(app.messages) },
            )) && (persisted_spec(app.messages).len() == 0 ==> load.archive is None)
            &&& chat.mode is Chat && chat.messages == app.messages
            &&& ({
                let after = loaded_spec(chat, item.id, item.summary, Some(history));
                &&& after.active_id == item.id
                &&& after.messages.drop_last() == restored_spec(history)
                &&& after.messages.last().content == "Resumed: "@ + item.summary
                &&& after.messages.last().is_context
                &&& after.scroll_offset == 0 && after.display_lines_dirty
            })
            &&& ({
                let kept = loaded_spec(chat, item.id, item.summary, None);
                kept.messages == app.messages && kept.active_id == app.active_id
            })
        }),
{
    let chat = choose_spec(app, cursor as int).0;
    let item = items[cursor as int];
    let after = loaded_spec(chat, item.id, item.summary, Some(history));
    assert(after.messages.drop_last() =~= restored_spec(history));
}

/// A new conversation takes the new id where there is one, shows nothing but a note, and starts
/// at its newest line.
pub proof fn law_new_conversation(app: AppView, id: Seq<char>)
    ensures
        new_conversation_spec(app, Some(id)).active_id == id,
        new_conversation_spec(app, None).active_id == app.active_id,
        ({
            let after = new_conversation_spec(app, Some(id));
            &&& after.messages.len() == 1
            &&& after.messages[0].content
                == "Started a new conversation. Type /resume to browse previous ones."@
            &&& after.messages[0].is_context
            &&& after.scroll_offset == 0 && after.display_lines_dirty
            &&& after.input == app.input
        }),
        archive_spec(app) is Some <==> persisted_spec(app.messages).len() > 0,
        archive_spec(app) matches Some(a) ==> a.id == app.active_id && a.messages == persisted_spec(
            app.messages,
        ),
{
}

/// The working directory is read only where the word `@cwd` stands in the input.
pub proof fn law_directory_is_wanted(input: Seq<char>)
    ensures
        wants_directory_spec(input) <==> words_spec(trim_spec(input)).contains("@cwd"@),
{
    law_requested_options(trim_spec(input), AttachmentOption::Cwd);
}

} // verus!
