//! What keys and the mouse do.

use crate::app::{App, AppMode, AppView, FetchView, ModeView, ModelFetch};
use crate::attachment::{option_label, AttachmentOption};
use crate::conversation::{ConversationMeta, MetaView};
use crate::picker::{
    accepted_attachment, accepted_command, attachment_suggestions, command_label,
    command_suggestions, min, moved_spec, query_spec, SlashCommand,
};
use crate::selection::{selected_spec, Selected, SelectedView};
use crate::text::{
    from_chars, is_control, is_control_spec, str_eq, to_chars, trim_end_spec, trim_start_spec,
};
use crate::turn::{choose_spec, command_spec, LoadRequest, LoadView};
use vstd::prelude::*;

verus! {

// ─── Keys ────────────────────────────────────────────────────────────────────

/// A key.
#[derive(Clone, Copy, PartialEq, Eq, Debug, Structural)]
pub enum KeyCode {
    Char(char),
    Enter,
    Escape,
    Backspace,
    Tab,
    UpArrow,
    DownArrow,
    LeftArrow,
    RightArrow,
    PageUp,
    PageDown,
    Other,
}

/// The modifiers that are held with a key.
#[derive(Clone, Copy, PartialEq, Eq, Debug, Structural)]
pub enum Modifiers {
    /// No modifier.
    Plain,
    Shift,
    Ctrl,
    Super,
    /// Another modifier, or several.
    Other,
}

/// A key press.
#[derive(Clone, Copy, PartialEq, Eq, Debug, Structural)]
pub struct KeyEvent {
    pub key: KeyCode,
    pub modifiers: Modifiers,
}

/// What a key asks for beyond the change of the state.
pub enum Action {
    Continue,
    /// Leave the chat, and stop an answer that is coming in.
    Quit,
    /// Tell the agent whether it may go on.
    Reply(bool),
    /// Submit the input.
    Submit,
    /// Put this text on the clipboard.
    Copy(String),
    /// The selection ends in front of its start, and there is nothing to copy.
    CrossedSelection,
    /// A status has just been put into the top bar.
    Flash,
    /// Remember that this model was selected.
    SaveModel(String),
    /// Load this conversation.
    Load(LoadRequest),
}

/// What an [`Action`] holds.
#[verifier::ext_equal]
pub enum ActionView {
    Continue,
    Quit,
    Reply(bool),
    Submit,
    Copy(Seq<char>),
    CrossedSelection,
    Flash,
    SaveModel(Seq<char>),
    Load(LoadView),
}

impl DeepView for Action {
    type V = ActionView;

    open spec fn deep_view(&self) -> ActionView {
        match self {
            Action::Continue => ActionView::Continue,
            Action::Quit => ActionView::Quit,
            Action::Reply(approved) => ActionView::Reply(*approved),
            Action::Submit => ActionView::Submit,
            Action::Copy(text) => ActionView::Copy(text@),
            Action::CrossedSelection => ActionView::CrossedSelection,
            Action::Flash => ActionView::Flash,
            Action::SaveModel(model) => ActionView::SaveModel(model@),
            Action::Load(request) => ActionView::Load(request.deep_view()),
        }
    }
}

// ─── What a key does ─────────────────────────────────────────────────────────

/// Whether a key copies the selection.
pub open spec fn is_copy(key: KeyEvent) -> bool {
    (key.key == KeyCode::Char('c') || key.key == KeyCode::Char('C')) && key.modifiers
        == Modifiers::Super
}

/// Whether a key allows what the agent asks for. Any other key refuses it.
pub open spec fn is_approval(key: KeyEvent) -> bool {
    key.key == KeyCode::Char('y') || key.key == KeyCode::Char('Y') || key.key == KeyCode::Enter
}

/// Whether a key is the tabulator.
pub open spec fn is_tab(key: KeyEvent) -> bool {
    key.key == KeyCode::Tab || key.key == KeyCode::Char('\t')
}

/// The state with the character in front of the cursor removed.
pub open spec fn backspace_spec(app: AppView) -> AppView {
    if app.input_cursor > 0 {
        AppView {
            input: app.input.take(app.input_cursor - 1) + app.input.skip(app.input_cursor as int),
            input_cursor: (app.input_cursor - 1) as usize,
            attachment_picker_index: 0,
            ..app
        }
    } else {
        app
    }
}

/// The state with the cursor at the index `k`.
pub open spec fn cursor_at(app: AppView, k: int) -> AppView {
    AppView { input_cursor: k as usize, attachment_picker_index: 0, ..app }
}

/// The state with `c` typed at the cursor.
pub open spec fn typed_spec(app: AppView, c: char) -> AppView {
    AppView {
        input: app.input.take(app.input_cursor as int).push(c) + app.input.skip(
            app.input_cursor as int,
        ),
        input_cursor: (app.input_cursor + 1) as usize,
        attachment_picker_index: 0,
        ..app
    }
}

/// How far the messages can be scrolled up.
pub open spec fn max_scroll(app: AppView) -> int {
    if app.cached_display_lines.len() > app.msg_area_height() {
        app.cached_display_lines.len() - app.msg_area_height()
    } else {
        0
    }
}

/// The state scrolled up by `n` lines.
pub open spec fn scrolled_up(app: AppView, n: int) -> AppView {
    AppView {
        scroll_offset: (if app.scroll_offset + n < max_scroll(app) {
            app.scroll_offset + n
        } else {
            max_scroll(app)
        }) as usize,
        ..app
    }
}

/// The state scrolled down by `n` lines.
pub open spec fn scrolled_down(app: AppView, n: int) -> AppView {
    AppView {
        scroll_offset: (if app.scroll_offset > n {
            app.scroll_offset - n
        } else {
            0
        }) as usize,
        ..app
    }
}

/// What comes of asking for the next model.
pub open spec fn next_model_spec(app: AppView) -> (AppView, ActionView) {
    if app.is_streaming {
        (app, ActionView::Continue)
    } else {
        match app.model_fetch {
            FetchView::Loading => (
                AppView { model_status_flash: Some("loading models…"@), ..app },
                ActionView::Flash,
            ),
            FetchView::Failed(e) => (
                AppView { model_status_flash: Some("fetch failed: "@ + e), ..app },
                ActionView::Flash,
            ),
            FetchView::Loaded => if app.available_models.len() > 1 {
                let next = AppView {
                    model_index: ((app.model_index + 1) % app.available_models.len() as int) as usize,
                    ..app
                };
                (next, ActionView::SaveModel(next.current_model()))
            } else {
                (app, ActionView::Continue)
            },
        }
    }
}

/// What comes of copying the selection.
pub open spec fn copy_spec(app: AppView) -> ActionView {
    match selected_spec(app) {
        SelectedView::Text(text) => ActionView::Copy(text),
        SelectedView::Nothing => ActionView::Continue,
        SelectedView::Crossed => ActionView::CrossedSelection,
    }
}

/// The commands that keys act on. While an answer streams in there are none.
pub open spec fn active_commands(app: AppView) -> Seq<SlashCommand> {
    if app.is_streaming {
        Seq::empty()
    } else {
        command_suggestions(app)
    }
}

/// The attachments that keys act on. While an answer streams in there are none.
pub open spec fn active_options(app: AppView) -> Seq<AttachmentOption> {
    if app.is_streaming {
        Seq::empty()
    } else {
        attachment_suggestions(app)
    }
}

/// Whether the word at the cursor is one of `options` already, letter for letter.
pub open spec fn is_exact_token(app: AppView, options: Seq<AttachmentOption>) -> bool {
    query_spec(app.input, app.input_cursor as int, '@') matches Some((_, _, token)) && exists|i: int|
        0 <= i < options.len() && option_label(#[trigger] options[i]) == token
}

/// What comes of the key `Enter`.
pub open spec fn enter_spec(app: AppView, modifiers: Modifiers) -> (AppView, ActionView) {
    if modifiers != Modifiers::Plain {
        (app, ActionView::Continue)
    } else if active_commands(app).len() > 0 {
        (accepted_command(app), ActionView::Submit)
    } else if active_options(app).len() > 0 && !is_exact_token(app, active_options(app)) {
        (accepted_attachment(app), ActionView::Continue)
    } else if !app.is_streaming {
        (app, ActionView::Submit)
    } else {
        (app, ActionView::Continue)
    }
}

/// The state after a vertical arrow: it moves the highlight of the suggestions, or else scrolls.
pub open spec fn arrow_key_spec(app: AppView, up: bool) -> AppView {
    let delta = if up {
        -1int
    } else {
        1int
    };
    if active_commands(app).len() > 0 {
        moved_spec(app, command_suggestions(app).len() as int, delta)
    } else if active_options(app).len() > 0 {
        moved_spec(app, attachment_suggestions(app).len() as int, delta)
    } else if up {
        scrolled_up(app, 3)
    } else {
        scrolled_down(app, 3)
    }
}

/// What comes of a character with its modifiers, where no suggestion takes the key.
pub open spec fn char_key_spec(app: AppView, c: char, modifiers: Modifiers) -> (AppView, ActionView) {
    if modifiers == Modifiers::Ctrl && c == 'C' {
        (app, ActionView::Quit)
    } else if modifiers == Modifiers::Ctrl && c == 'U' {
        (cursor_at(AppView { input: Seq::empty(), ..app }, 0), ActionView::Continue)
    } else if modifiers == Modifiers::Ctrl && c == 'A' {
        (cursor_at(app, 0), ActionView::Continue)
    } else if modifiers == Modifiers::Ctrl && c == 'E' {
        (cursor_at(app, app.input.len() as int), ActionView::Continue)
    } else if modifiers == Modifiers::Super && (c == 'c' || c == 'C') {
        (app, copy_spec(app))
    } else if (modifiers == Modifiers::Plain || modifiers == Modifiers::Shift)
        && !is_control_spec(c) && !app.is_streaming {
        (typed_spec(app, c), ActionView::Continue)
    } else {
        (app, ActionView::Continue)
    }
}

/// What comes of the tabulator: it accepts a suggestion, and with shift selects the next model.
pub open spec fn tab_spec(app: AppView, modifiers: Modifiers) -> (AppView, ActionView) {
    if modifiers == Modifiers::Plain && active_commands(app).len() > 0 {
        (accepted_command(app), ActionView::Continue)
    } else if modifiers == Modifiers::Plain && active_options(app).len() > 0 {
        (accepted_attachment(app), ActionView::Continue)
    } else if modifiers == Modifiers::Shift {
        next_model_spec(app)
    } else {
        (app, ActionView::Continue)
    }
}

/// What comes of a key while the chat is shown and nothing is to be allowed.
pub open spec fn chat_key_spec(app: AppView, key: KeyEvent) -> (AppView, ActionView) {
    if is_tab(key) {
        tab_spec(app, key.modifiers)
    } else {
        match key.key {
            KeyCode::Escape => (app, ActionView::Quit),
            KeyCode::Enter => enter_spec(app, key.modifiers),
            KeyCode::Backspace => (backspace_spec(app), ActionView::Continue),
            KeyCode::UpArrow => (arrow_key_spec(app, true), ActionView::Continue),
            KeyCode::DownArrow => (arrow_key_spec(app, false), ActionView::Continue),
            KeyCode::PageUp => (scrolled_up(app, 3), ActionView::Continue),
            KeyCode::PageDown => (scrolled_down(app, 3), ActionView::Continue),
            KeyCode::LeftArrow => (
                cursor_at(app, if app.input_cursor > 0 { app.input_cursor - 1 } else { 0 }),
                ActionView::Continue,
            ),
            KeyCode::RightArrow => (
                cursor_at(
                    app,
                    if app.input_cursor < app.input.len() {
                        app.input_cursor + 1
                    } else {
                        app.input_cursor as int
                    },
                ),
                ActionView::Continue,
            ),
            KeyCode::Char(c) => char_key_spec(app, c, key.modifiers),
            KeyCode::Tab | KeyCode::Other => (app, ActionView::Continue),
        }
    }
}

/// The state after the selection has been dismissed: any key but the one that copies does it.
pub open spec fn deselected_spec(app: AppView, key: KeyEvent) -> AppView {
    if !is_copy(key) && app.selection is Some {
        AppView { selection: None, selecting: false, ..app }
    } else {
        app
    }
}

/// What comes of a key while the list of conversations is shown.
pub open spec fn picker_key_spec(
    app: AppView,
    items: Seq<MetaView>,
    cursor: usize,
    key: KeyEvent,
) -> (AppView, ActionView) {
    match key.key {
        KeyCode::Escape => (AppView { mode: ModeView::Chat, ..app }, ActionView::Continue),
        KeyCode::UpArrow => (
            if cursor > 0 {
                AppView {
                    mode: ModeView::ResumePicker { items, cursor: (cursor - 1) as usize },
                    ..app
                }
            } else {
                app
            },
            ActionView::Continue,
        ),
        KeyCode::DownArrow => (
            if cursor + 1 < items.len() {
                AppView {
                    mode: ModeView::ResumePicker { items, cursor: (cursor + 1) as usize },
                    ..app
                }
            } else {
                app
            },
            ActionView::Continue,
        ),
        KeyCode::Enter => {
            let (after, request) = choose_spec(app, cursor as int);
            (
                after,
                match request {
                    Some(r) => ActionView::Load(r),
                    None => ActionView::Continue,
                },
            )
        },
        _ => (app, ActionView::Continue),
    }
}

/// What comes of a key.
pub open spec fn key_spec(app: AppView, key: KeyEvent) -> (AppView, ActionView) {
    match app.mode {
        ModeView::ResumePicker { items, cursor } => picker_key_spec(app, items, cursor, key),
        ModeView::Chat => {
            let deselected = deselected_spec(app, key);
            if app.pending_approval is Some {
                (
                    AppView { pending_approval: None, ..deselected },
                    ActionView::Reply(is_approval(key)),
                )
            } else {
                chat_key_spec(deselected, key)
            }
        },
    }
}

impl App {
    /// Remove the character in front of the cursor.
    fn backspace(&mut self)
        requires
            old(self).deep_view().wf(),
        ensures
            final(self).deep_view() == backspace_spec(old(self).deep_view()),
            final(self).deep_view().wf(),
    {
        if self.input_cursor > 0 {
            let ghost given = self.input@;
            let chars: Vec<char> = to_chars(self.input.as_str());
            let mut out: String = from_chars(&chars, 0, self.input_cursor - 1);
            out.append(from_chars(&chars, self.input_cursor, chars.len()).as_str());
            proof {
                let k = self.input_cursor as int;
                assert(given.subrange(0, k - 1) =~= given.take(k - 1));
                assert(given.subrange(k, given.len() as int) =~= given.skip(k));
            }
            self.input = out;
            self.input_cursor -= 1;
            self.attachment_picker_index = 0;
        }
    }

    /// Type a character at the cursor.
    fn type_char(&mut self, c: char)
        requires
            old(self).deep_view().wf(),
        ensures
            final(self).deep_view() == typed_spec(old(self).deep_view(), c),
            final(self).deep_view().wf(),
    {
        let ghost app = self.deep_view();
        let mut text: String = String::new();
        text.push(c);
        self.insert_text(text.as_str());
        self.attachment_picker_index = 0;
        proof {
            assert(text@ =~= seq![c]);
            assert(self.input@ =~= typed_spec(app, c).input);
        }
    }

    fn move_cursor(&mut self, k: usize)
        requires
            old(self).deep_view().wf(),
            k <= old(self).deep_view().input.len(),
        ensures
            final(self).deep_view() == cursor_at(old(self).deep_view(), k as int),
            final(self).deep_view().wf(),
    {
        self.input_cursor = k;
        self.attachment_picker_index = 0;
    }

    /// Scroll up by `n` lines, at most to the first one.
    pub fn scroll_up(&mut self, n: usize)
        ensures
            final(self).deep_view() == scrolled_up(old(self).deep_view(), n as int),
    {
        assert(self.cached_display_lines.deep_view().len() == self.cached_display_lines@.len());
        let total: usize = self.display_lines().len();
        let max_offset: usize = total.saturating_sub(self.msg_area_height());
        let wanted: usize = self.scroll_offset.saturating_add(n);
        self.scroll_offset = if wanted < max_offset {
            wanted
        } else {
            max_offset
        };
    }

    /// Scroll down by `n` lines, at most to the last one.
    pub fn scroll_down(&mut self, n: usize)
        ensures
            final(self).deep_view() == scrolled_down(old(self).deep_view(), n as int),
    {
        self.scroll_offset = self.scroll_offset.saturating_sub(n);
    }

    /// Select the next model.
    fn next_model(&mut self) -> (r: Action)
        requires
            old(self).deep_view().wf(),
        ensures
            (final(self).deep_view(), r.deep_view()) == next_model_spec(old(self).deep_view()),
            final(self).deep_view().wf(),
    {
        if self.is_streaming {
            return Action::Continue;
        }
        let flash: String = match &self.model_fetch {
            ModelFetch::Loading => "loading models…".to_string(),
            ModelFetch::Failed(e) => {
                let mut msg: String = "fetch failed: ".to_string();
                msg.append(e.as_str());
                msg
            },
            ModelFetch::Loaded => {
                assert(self.available_models.deep_view().len() == self.available_models@.len());
                if self.available_models.len() > 1 {
                    self.model_index = (self.model_index + 1) % self.available_models.len();
                    return Action::SaveModel(self.current_model());
                }
                return Action::Continue;
            },
        };
        self.model_status_flash = Some(flash);
        Action::Flash
    }

    /// Copy the selection.
    pub fn copy_selection(&self) -> (r: Action)
        ensures
            r.deep_view() == copy_spec(self.deep_view()),
    {
        match self.selected_text() {
            Selected::Crossed => Action::CrossedSelection,
            _ => match self.extract_selection_text() {
                Some(text) => Action::Copy(text),
                None => Action::Continue,
            },
        }
    }

    fn keyed_commands(&self) -> (r: Vec<SlashCommand>)
        ensures
            r@ == active_commands(self.deep_view()),
    {
        if self.is_streaming {
            Vec::new()
        } else {
            self.slash_picker_options()
        }
    }

    fn keyed_options(&self) -> (r: Vec<AttachmentOption>)
        ensures
            r@ == active_options(self.deep_view()),
    {
        if self.is_streaming {
            Vec::new()
        } else {
            self.attachment_picker_options()
        }
    }

    fn exact_token(&self, options: &Vec<AttachmentOption>) -> (r: bool)
        ensures
            r == is_exact_token(self.deep_view(), options@),
    {
        match self.current_attachment_query() {
            Some((start, end, token)) => {
                let mut i: usize = 0;
                while i < options.len()
                    invariant
                        i <= options.len(),
                        query_spec(self.input@, self.input_cursor as int, '@') == Some(
                            (start as int, end as int, token@),
                        ),
                        forall|j: int|
                            0 <= j < i ==> option_label(#[trigger] options@[j]) != token@,
                    decreases options.len() - i,
                {
                    if str_eq(options[i].label(), token.as_str()) {
                        assert(option_label(options@[i as int]) == token@);
                        return true;
                    }
                    i += 1;
                }
                false
            },
            None => false,
        }
    }

    fn enter(&mut self, modifiers: Modifiers) -> (r: Action)
        requires
            old(self).deep_view().wf(),
        ensures
            (final(self).deep_view(), r.deep_view()) == enter_spec(
                old(self).deep_view(),
                modifiers,
            ),
            final(self).deep_view().wf(),
    {
        if modifiers != Modifiers::Plain {
            return Action::Continue;
        }
        // A command takes no further text, so that it is carried out at once.
        if self.keyed_commands().len() > 0 {
            self.accept_slash_picker();
            return Action::Submit;
        }
        let options: Vec<AttachmentOption> = self.keyed_options();
        if options.len() > 0 && !self.exact_token(&options) {
            self.accept_attachment_picker();
            return Action::Continue;
        }
        if !self.is_streaming {
            Action::Submit
        } else {
            Action::Continue
        }
    }

    fn vertical_arrow(&mut self, up: bool)
        requires
            old(self).deep_view().wf(),
        ensures
            final(self).deep_view() == arrow_key_spec(old(self).deep_view(), up),
            final(self).deep_view().wf(),
    {
        let delta: isize = if up {
            -1
        } else {
            1
        };
        if self.keyed_commands().len() > 0 {
            self.move_slash_picker(delta);
        } else if self.keyed_options().len() > 0 {
            self.move_attachment_picker(delta);
        } else if up {
            self.scroll_up(3);
        } else {
            self.scroll_down(3);
        }
    }

    fn tab(&mut self, modifiers: Modifiers) -> (r: Action)
        requires
            old(self).deep_view().wf(),
        ensures
            (final(self).deep_view(), r.deep_view()) == tab_spec(old(self).deep_view(), modifiers),
            final(self).deep_view().wf(),
    {
        if modifiers == Modifiers::Plain {
            if self.keyed_commands().len() > 0 {
                self.accept_slash_picker();
            } else if self.keyed_options().len() > 0 {
                self.accept_attachment_picker();
            }
            return Action::Continue;
        }
        if modifiers == Modifiers::Shift {
            self.next_model()
        } else {
            Action::Continue
        }
    }

    fn char_key(&mut self, c: char, modifiers: Modifiers) -> (r: Action)
        requires
            old(self).deep_view().wf(),
        ensures
            (final(self).deep_view(), r.deep_view()) == char_key_spec(
                old(self).deep_view(),
                c,
                modifiers,
            ),
            final(self).deep_view().wf(),
    {
        match modifiers {
            Modifiers::Ctrl => {
                if c == 'C' {
                    return Action::Quit;
                }
                if c == 'U' {
                    self.clear_input();
                    self.attachment_picker_index = 0;
                } else if c == 'A' {
                    self.move_cursor(0);
                } else if c == 'E' {
                    let len: usize = self.input.as_str().unicode_len();
                    self.move_cursor(len);
                }
                Action::Continue
            },
            Modifiers::Super => {
                if c == 'c' || c == 'C' {
                    self.copy_selection()
                } else {
                    Action::Continue
                }
            },
            Modifiers::Plain | Modifiers::Shift => {
                if !is_control(c) && !self.is_streaming {
                    self.type_char(c);
                }
                Action::Continue
            },
            Modifiers::Other => Action::Continue,
        }
    }

    fn chat_key(&mut self, key: &KeyEvent) -> (r: Action)
        requires
            old(self).deep_view().wf(),
        ensures
            (final(self).deep_view(), r.deep_view()) == chat_key_spec(old(self).deep_view(), *key),
            final(self).deep_view().wf(),
    {
        if key.key == KeyCode::Tab || key.key == KeyCode::Char('\t') {
            return self.tab(key.modifiers);
        }
        match key.key {
            KeyCode::Escape => {
                return Action::Quit;
            },
            KeyCode::Enter => {
                return self.enter(key.modifiers);
            },
            KeyCode::Char(c) => {
                return self.char_key(c, key.modifiers);
            },
            KeyCode::Backspace => {
                self.backspace();
            },
            KeyCode::UpArrow => {
                self.vertical_arrow(true);
            },
            KeyCode::DownArrow => {
                self.vertical_arrow(false);
            },
            KeyCode::PageUp => {
                self.scroll_up(3);
            },
            KeyCode::PageDown => {
                self.scroll_down(3);
            },
            KeyCode::LeftArrow => {
                let k: usize = self.input_cursor.saturating_sub(1);
                self.move_cursor(k);
            },
            KeyCode::RightArrow => {
                let len: usize = self.input.as_str().unicode_len();
                let k: usize = if self.input_cursor < len {
                    self.input_cursor + 1
                } else {
                    self.input_cursor
                };
                self.move_cursor(k);
            },
            KeyCode::Tab | KeyCode::Other => {},
        }
        Action::Continue
    }
}

/// Take in a key while the chat or the list of conversations is shown.
pub fn handle_key(key: &KeyEvent, app: &mut App) -> (r: Action)
    requires
        old(app).deep_view().wf(),
    ensures
        (final(app).deep_view(), r.deep_view()) == key_spec(old(app).deep_view(), *key),
        final(app).deep_view().wf(),
{
    match app.mode {
        AppMode::ResumePicker { .. } => {
            return handle_key_picker(key, app);
        },
        AppMode::Chat => {},
    }
    // Any key but the one that copies dismisses the selection.
    let copies: bool = (key.key == KeyCode::Char('c') || key.key == KeyCode::Char('C'))
        && key.modifiers == Modifiers::Super;
    if !copies && app.selection.is_some() {
        app.selection = None;
        app.selecting = false;
    }
    if app.pending_approval.is_some() {
        app.pending_approval = None;
        let approved: bool = key.key == KeyCode::Char('y') || key.key == KeyCode::Char('Y')
            || key.key == KeyCode::Enter;
        return Action::Reply(approved);
    }
    app.chat_key(key)
}

/// Take in a key while the list of conversations is shown.
pub fn handle_key_picker(key: &KeyEvent, app: &mut App) -> (r: Action)
    requires
        old(app).deep_view().wf(),
    ensures
        match old(app).deep_view().mode {
            ModeView::ResumePicker { items, cursor } => (final(app).deep_view(), r.deep_view())
                == picker_key_spec(old(app).deep_view(), items, cursor, *key),
            ModeView::Chat => (final(app).deep_view(), r.deep_view()) == (
                old(app).deep_view(),
                ActionView::Continue,
            ),
        },
        final(app).deep_view().wf(),
{
    let (cursor, len): (usize, usize) = match &app.mode {
        AppMode::ResumePicker { items, cursor } => {
            assert(items.deep_view().len() == items@.len());
            (*cursor, items.len())
        },
        AppMode::Chat => {
            return Action::Continue;
        },
    };
    match key.key {
        KeyCode::Escape => {
            app.mode = AppMode::Chat;
        },
        KeyCode::UpArrow => {
            if cursor > 0 {
                set_picker_cursor(app, cursor - 1);
            }
        },
        KeyCode::DownArrow => {
            if cursor + 1 < len {
                set_picker_cursor(app, cursor + 1);
            }
        },
        KeyCode::Enter => {
            return match app.load_conversation_from_picker(cursor) {
                Some(request) => Action::Load(request),
                None => Action::Continue,
            };
        },
        _ => {},
    }
    Action::Continue
}

fn set_picker_cursor(app: &mut App, to: usize)
    requires
        old(app).deep_view().mode is ResumePicker,
    ensures
        final(app).deep_view() == (AppView {
            mode: ModeView::ResumePicker {
                items: old(app).deep_view().mode->items,
                cursor: to,
            },
            ..old(app).deep_view()
        }),
{
    let mut mode: AppMode = AppMode::Chat;
    std::mem::swap(&mut mode, &mut app.mode);
    if let AppMode::ResumePicker { items, cursor: _ } = mode {
        let items: Vec<ConversationMeta> = items;
        app.mode = AppMode::ResumePicker { items, cursor: to };
    }
}

// ─── Mouse ───────────────────────────────────────────────────────────────────

/// What the mouse does.
#[derive(Clone, Copy, PartialEq, Eq, Debug, Structural)]
pub struct MouseEvent {
    pub x: u16,
    pub y: u16,
    /// The vertical wheel turns.
    pub vert_wheel: bool,
    /// The wheel turns up.
    pub wheel_positive: bool,
    /// The left button is down.
    pub left: bool,
}

/// The first visible line of the message area.
pub open spec fn visible_start(app: AppView) -> int {
    let total = app.cached_display_lines.len();
    let height = app.msg_area_height();
    if total <= height {
        0
    } else if total - height > app.scroll_offset {
        total - height - app.scroll_offset
    } else {
        0
    }
}

/// Whether a terminal row is one of the message area. The first row is the top border.
pub open spec fn in_msg_area(app: AppView, row: int) -> bool {
    1 <= row < app.rows - 3
}

/// The line that a terminal row of the message area shows.
pub open spec fn line_at(app: AppView, row: int) -> int {
    visible_start(app) + row - 1
}

/// The state after the mouse has moved with the left button down. The selection starts with the
/// first movement, and follows the mouse from then on.
pub open spec fn dragged_spec(app: AppView, x: usize, line: int) -> AppView {
    match app.drag_origin {
        Some((row, col)) => if app.selecting {
            match app.selection {
                Some((r0, c0, _, _)) => AppView {
                    selection: Some((r0, c0, line as usize, x)),
                    ..app
                },
                None => app,
            }
        } else if line != row || x != col {
            AppView { selection: Some((row, col, line as usize, x)), selecting: true, ..app }
        } else {
            app
        },
        None => app,
    }
}

/// The state after the mouse has done something. Press and drag look the same, so that the state
/// of the button at the previous event tells them apart.
pub open spec fn mouse_spec(app: AppView, event: MouseEvent) -> AppView {
    if event.vert_wheel {
        if event.wheel_positive {
            scrolled_up(app, 2)
        } else {
            scrolled_down(app, 2)
        }
    } else {
        let inside = in_msg_area(app, event.y as int);
        let line = line_at(app, event.y as int);
        let now = AppView { left_was_pressed: event.left, ..app };
        match (app.left_was_pressed, event.left) {
            (false, true) => AppView {
                selection: None,
                selecting: false,
                drag_origin: if inside {
                    Some((line as usize, event.x as usize))
                } else {
                    None
                },
                ..now
            },
            (true, true) => if inside {
                dragged_spec(now, event.x as usize, line)
            } else {
                now
            },
            (true, false) => AppView { selecting: false, ..now },
            (false, false) => now,
        }
    }
}

impl App {
    /// The first visible line of the message area.
    pub fn first_visible_line(&self) -> (r: usize)
        ensures
            r == visible_start(self.deep_view()),
    {
        assert(self.cached_display_lines.deep_view().len() == self.cached_display_lines@.len());
        let total: usize = self.display_lines().len();
        let height: usize = self.msg_area_height();
        if total <= height {
            0
        } else {
            (total - height).saturating_sub(self.scroll_offset)
        }
    }
}

/// Take in what the mouse does: the wheel scrolls, the left button selects text.
pub fn handle_mouse(event: &MouseEvent, app: &mut App)
    ensures
        final(app).deep_view() == mouse_spec(old(app).deep_view(), *event),
        old(app).deep_view().wf() ==> final(app).deep_view().wf(),
{
    if event.vert_wheel {
        if event.wheel_positive {
            app.scroll_up(2);
        } else {
            app.scroll_down(2);
        }
        return;
    }
    let mx: usize = event.x as usize;
    let my: usize = event.y as usize;
    let inside: bool = my >= 1 && my < app.rows.saturating_sub(3);
    proof {
        let lines = app.cached_display_lines;
        assert(lines.deep_view().len() == lines@.len());
        assert(lines@.len() == lines.len());
    }
    let line: usize = if inside {
        app.first_visible_line() + (my - 1)
    } else {
        0
    };
    let was_pressed: bool = app.left_was_pressed;
    app.left_was_pressed = event.left;
    if !was_pressed && event.left {
        app.selection = None;
        app.selecting = false;
        app.drag_origin = if inside {
            Some((line, mx))
        } else {
            None
        };
    } else if was_pressed && event.left {
        if inside {
            if let Some((orig_row, orig_col)) = app.drag_origin {
                if app.selecting {
                    if let Some((r0, c0, _, _)) = app.selection {
                        app.selection = Some((r0, c0, line, mx));
                    }
                } else if line != orig_row || mx != orig_col {
                    app.selection = Some((orig_row, orig_col, line, mx));
                    app.selecting = true;
                }
            }
        }
    } else if was_pressed {
        app.selecting = false;
    }
}

// ─── Laws ────────────────────────────────────────────────────────────────────

/// Nothing is allowed by accident: while the agent waits, every key answers it, and only the keys
/// of consent allow the operation. The input stays as it was.
pub proof fn law_every_key_answers(app: AppView, key: KeyEvent)
    requires
        app.mode is Chat,
        app.pending_approval is Some,
    ensures
        key_spec(app, key).1 == ActionView::Reply(is_approval(key)),
        key_spec(app, key).0.pending_approval is None,
        key_spec(app, key).0.input == app.input,
        key_spec(app, key).0.messages == app.messages,
{
}

/// The list of conversations and the answer to the agent do not get in each other's way: while
/// the list is shown, no key answers.
pub proof fn law_list_does_not_answer(app: AppView, key: KeyEvent)
    requires
        app.mode is ResumePicker,
    ensures
        key_spec(app, key).0.pending_approval == app.pending_approval,
        !(key_spec(app, key).1 is Reply),
{
}

/// While an answer streams in nothing is submitted, no suggestion is accepted and no character
/// goes into the input.
pub proof fn law_streaming_holds_input_back(app: AppView, key: KeyEvent)
    requires
        app.mode is Chat,
        app.is_streaming,
    ensures
        !(key_spec(app, key).1 is Submit),
        (key.key is Char && key.modifiers != Modifiers::Ctrl) || key.key == KeyCode::Enter
            || key.key == KeyCode::Tab ==> key_spec(app, key).0.input == app.input,
{
}

/// Any key but the one that copies dismisses the selection, and that one keeps it.
pub proof fn law_keys_dismiss_selection(app: AppView, key: KeyEvent)
    requires
        app.mode is Chat,
    ensures
        !is_copy(key) ==> key_spec(app, key).0.selection is None,
        is_copy(key) ==> key_spec(app, key).0.selection == app.selection,
{
}

/// Where the input is the start of a command, `Enter` completes it and submits it as that command.
pub proof fn law_enter_runs_the_command(app: AppView)
    requires
        app.mode is Chat,
        app.pending_approval is None,
        !app.is_streaming,
        command_suggestions(app).len() > 0,
        query_spec(app.input, app.input_cursor as int, '/') matches Some((start, end, _)) && start
            == 0 && end == app.input.len(),
    ensures
        ({
            let (after, action) = key_spec(
                app,
                KeyEvent { key: KeyCode::Enter, modifiers: Modifiers::Plain },
            );
            let commands = command_suggestions(app);
            let chosen = commands[min(app.attachment_picker_index as int, commands.len() - 1)];
            &&& action is Submit
            &&& after.input == command_label(chosen)
            &&& command_spec(after.input) == Some(chosen)
        }),
{
    let commands = command_suggestions(app);
    let chosen = commands[min(app.attachment_picker_index as int, commands.len() - 1)];
    let label = command_label(chosen);
    let key = KeyEvent { key: KeyCode::Enter, modifiers: Modifiers::Plain };
    let deselected = deselected_spec(app, key);
    assert(command_suggestions(deselected) == commands);
    assert(accepted_command(deselected).input =~= label);
    reveal_strlit("/new");
    reveal_strlit("/resume");
    assert("/new"@.len() == 4 && "/resume"@.len() == 7);
    assert("/new"@[3] == 'w' && "/resume"@[6] == 'e');
    assert(trim_start_spec(label) == label);
    assert(trim_end_spec(label) == label);
}

/// Deleting a character undoes typing it.
pub proof fn law_backspace_undoes_typing(app: AppView, c: char)
    requires
        app.wf(),
        app.input_cursor < usize::MAX,
    ensures
        backspace_spec(typed_spec(app, c)).input == app.input,
        backspace_spec(typed_spec(app, c)).input_cursor == app.input_cursor,
{
    let k = app.input_cursor as int;
    let typed = typed_spec(app, c).input;
    assert(typed.take(k) =~= app.input.take(k));
    assert(typed.skip(k + 1) =~= app.input.skip(k));
    assert(app.input.take(k) + app.input.skip(k) =~= app.input);
}

/// Asking for the next model as often as there are models leads back to the model of the start.
pub proof fn law_models_rotate(app: AppView, n: nat)
    requires
        app.wf(),
        !app.is_streaming,
        app.model_fetch is Loaded,
        app.available_models.len() > 1,
        app.available_models.len() <= usize::MAX,
    ensures
        rotated(app, n).model_index == (app.model_index + n) % app.available_models.len() as int,
        rotated(app, n).available_models == app.available_models,
        n == app.available_models.len() ==> rotated(app, n).model_index == app.model_index,
    decreases n,
{
    let len = app.available_models.len() as int;
    if n > 0 {
        law_models_rotate(app, (n - 1) as nat);
        lemma_rotation_keeps(app, (n - 1) as nat);
        let before = (app.model_index + (n - 1)) % len;
        vstd::arithmetic::div_mod::lemma_add_mod_noop(app.model_index + (n - 1), 1, len);
        vstd::arithmetic::div_mod::lemma_small_mod(1, len as nat);
        assert((before + 1) % len == (app.model_index + n) % len);
    } else {
        vstd::arithmetic::div_mod::lemma_small_mod(app.model_index as nat, len as nat);
    }
    if n == len {
        vstd::arithmetic::div_mod::lemma_mod_add_multiples_vanish(app.model_index as int, len);
        vstd::arithmetic::div_mod::lemma_small_mod(app.model_index as nat, len as nat);
    }
}

/// The state after asking `n` times for the next model.
pub open spec fn rotated(app: AppView, n: nat) -> AppView
    decreases n,
{
    if n == 0 {
        app
    } else {
        next_model_spec(rotated(app, (n - 1) as nat)).0
    }
}

proof fn lemma_rotation_keeps(app: AppView, n: nat)
    requires
        !app.is_streaming,
        app.model_fetch is Loaded,
    ensures
        !rotated(app, n).is_streaming,
        rotated(app, n).model_fetch is Loaded,
    decreases n,
{
    if n > 0 {
        lemma_rotation_keeps(app, (n - 1) as nat);
    }
}

/// Pressing and releasing the left button without moving selects nothing, and dismisses what was
/// selected.
pub proof fn law_click_selects_nothing(app: AppView, down: MouseEvent, up: MouseEvent)
    requires
        !app.left_was_pressed,
        !down.vert_wheel && down.left,
        !up.vert_wheel && !up.left,
    ensures
        mouse_spec(mouse_spec(app, down), up).selection is None,
        !mouse_spec(mouse_spec(app, down), up).selecting,
{
}

/// A drag selects from where the button went down to where the mouse is.
pub proof fn law_drag_selects(app: AppView, down: MouseEvent, drag: MouseEvent)
    requires
        !app.left_was_pressed,
        !down.vert_wheel && down.left,
        !drag.vert_wheel && drag.left,
        in_msg_area(app, down.y as int),
        in_msg_area(app, drag.y as int),
        down.x != drag.x || down.y != drag.y,
        app.cached_display_lines.len() <= usize::MAX,
    ensures
        mouse_spec(mouse_spec(app, down), drag).selection == Some(
            (
                line_at(app, down.y as int) as usize,
                down.x as usize,
                line_at(app, drag.y as int) as usize,
                drag.x as usize,
            ),
        ),
{
}

/// How the keys edit the input: a character goes in at the cursor, backspace takes the one in
/// front of it out, the arrows move the cursor by one character within the input, and `Ctrl` with
/// `A`, `E` and `U` moves it to the start, to the end, and clears the input. `Escape` and `Ctrl`
/// with `C` leave.
pub proof fn law_editing_keys(app: AppView, key: KeyEvent)
    requires
        app.mode is Chat,
        app.pending_approval is None,
        app.wf(),
        app.input.len() < usize::MAX,
    ensures
        ({
            let (after, action) = key_spec(app, key);
            let k = app.input_cursor as int;
            let plain = key.modifiers == Modifiers::Plain || key.modifiers == Modifiers::Shift;
            match key.key {
                KeyCode::Char(c) => {
                    &&& plain && !app.is_streaming && c as u32 >= 0x20 && !(0x7f <= c as u32
                        <= 0x9f) ==> after.input == app.input.insert(k, c) && after.input_cursor == k
                        + 1 && after.attachment_picker_index == 0 && action is Continue
                    &&& key.modifiers == Modifiers::Ctrl && c == 'U' ==> after.input.len() == 0
                        && after.input_cursor == 0 && action is Continue
                    &&& key.modifiers == Modifiers::Ctrl && c == 'A' ==> after.input == app.input
                        && after.input_cursor == 0 && action is Continue
                    &&& key.modifiers == Modifiers::Ctrl && c == 'E' ==> after.input == app.input
                        && after.input_cursor == app.input.len() && action is Continue
                    &&& key.modifiers == Modifiers::Ctrl && c == 'C' ==> action is Quit
                },
                KeyCode::Backspace => {
                    &&& k > 0 ==> after.input == app.input.remove(k - 1) && after.input_cursor == k
                        - 1 && after.attachment_picker_index == 0
                    &&& k == 0 ==> after.input == app.input && after.input_cursor == 0
                    &&& action is Continue
                },
                KeyCode::LeftArrow => {
                    &&& after.input == app.input && after.attachment_picker_index == 0
                    &&& k > 0 ==> after.input_cursor == k - 1
                    &&& k == 0 ==> after.input_cursor == 0
                },
                KeyCode::RightArrow => {
                    &&& after.input == app.input && after.attachment_picker_index == 0
                    &&& k < app.input.len() ==> after.input_cursor == k + 1
                    &&& k == app.input.len() ==> after.input_cursor == k
                },
                KeyCode::Escape => action is Quit,
                _ => true,
            }
        }),
{
    let k = app.input_cursor as int;
    match key.key {
        KeyCode::Char(c) => {
            assert(app.input.take(k).push(c) + app.input.skip(k) =~= app.input.insert(k, c));
        },
        KeyCode::Backspace => {
            if k > 0 {
                assert(app.input.take(k - 1) + app.input.skip(k) =~= app.input.remove(k - 1));
            }
        },
        _ => {},
    }
}

/// No key of the chat touches the conversation: its messages and lines, its context, the list of
/// models and the size of the pane stay as they are, and the chat stays in view.
pub proof fn law_keys_keep_the_conversation(app: AppView, key: KeyEvent)
    requires
        app.mode is Chat,
    ensures
        ({
            let after = key_spec(app, key).0;
            &&& after.mode is Chat
            &&& after.messages == app.messages
            &&& after.cached_display_lines == app.cached_display_lines
            &&& after.display_lines_dirty == app.display_lines_dirty
            &&& after.context == app.context
            &&& after.available_models == app.available_models
            &&& after.active_id == app.active_id
            &&& after.is_streaming == app.is_streaming
            &&& after.stream_open == app.stream_open
            &&& after.grapheme_queue == app.grapheme_queue
            &&& after.rows == app.rows && after.cols == app.cols
        }),
{
}

/// How far the lines scroll: three lines for a key, two for a step of the wheel, never past the
/// first line nor past the last.
pub proof fn law_scrolling(app: AppView, key: KeyEvent, event: MouseEvent)
    requires
        app.mode is Chat,
        app.pending_approval is None,
        app.rows >= 4,
        app.cached_display_lines.len() <= usize::MAX,
    ensures
        ({
            let most = if app.cached_display_lines.len() > app.rows - 4 {
                app.cached_display_lines.len() - (app.rows - 4)
            } else {
                0
            };
            let offset = app.scroll_offset as int;
            let up = |n: int| if offset + n < most { offset + n } else { most };
            let down = |n: int| if offset > n { offset - n } else { 0 };
            let suggests = !app.is_streaming && (command_suggestions(app).len() > 0
                || attachment_suggestions(app).len() > 0);
            &&& key.key == KeyCode::PageUp || key.key == KeyCode::UpArrow && !suggests ==> key_spec(
                app,
                key,
            ).0.scroll_offset == up(3)
            &&& key.key == KeyCode::PageDown || key.key == KeyCode::DownArrow && !suggests
                ==> key_spec(app, key).0.scroll_offset == down(3)
            &&& event.vert_wheel && event.wheel_positive ==> mouse_spec(app, event).scroll_offset
                == up(2)
            &&& event.vert_wheel && !event.wheel_positive ==> mouse_spec(app, event).scroll_offset
                == down(2)
            &&& key.key != KeyCode::PageUp && key.key != KeyCode::PageDown && key.key
                != KeyCode::UpArrow && key.key != KeyCode::DownArrow ==> key_spec(
                app,
                key,
            ).0.scroll_offset == app.scroll_offset
            &&& !event.vert_wheel ==> mouse_spec(app, event).scroll_offset == app.scroll_offset
        }),
{
    let deselected = deselected_spec(app, key);
    assert(command_suggestions(deselected) == command_suggestions(app));
    assert(attachment_suggestions(deselected) == attachment_suggestions(app));
}

/// `Shift` with `Tab` takes the next model of the list, behind the last one the first, and saves
/// it; while the list is not there it says why, and while an answer streams in it does nothing.
pub proof fn law_next_model(app: AppView, key: KeyEvent)
    requires
        app.mode is Chat,
        app.pending_approval is None,
        app.wf(),
        app.available_models.len() <= usize::MAX,
        key.key == KeyCode::Tab,
        key.modifiers == Modifiers::Shift,
    ensures
        ({
            let (after, action) = key_spec(app, key);
            let n = app.available_models.len();
            let next = if app.model_index + 1 < n {
                app.model_index + 1
            } else {
                0
            };
            &&& app.is_streaming ==> after.model_index == app.model_index && action is Continue
                && after.model_status_flash == app.model_status_flash
            &&& !app.is_streaming && app.model_fetch is Loading ==> after.model_status_flash == Some(
                "loading models…"@,
            ) && action is Flash && after.model_index == app.model_index
            &&& !app.is_streaming ==> (app.model_fetch matches FetchView::Failed(e)
                ==> after.model_status_flash == Some("fetch failed: "@ + e) && action is Flash
                && after.model_index == app.model_index)
            &&& !app.is_streaming && app.model_fetch is Loaded && n > 1 ==> after.model_index
                == next && action == ActionView::SaveModel(app.available_models[next])
            &&& !app.is_streaming && app.model_fetch is Loaded && n <= 1 ==> after.model_index
                == app.model_index && action is Continue
        }),
{
    let n = app.available_models.len() as int;
    if n > 1 {
        if app.model_index + 1 < n {
            vstd::arithmetic::div_mod::lemma_small_mod((app.model_index + 1) as nat, n as nat);
        } else {
            vstd::arithmetic::div_mod::lemma_mod_self_0(n);
        }
    }
}

/// The keys that answer the agent: `y`, `Y` and `Enter` allow the operation, every other key
/// refuses it.
pub proof fn law_answers(app: AppView, key: KeyEvent)
    requires
        app.mode is Chat,
        app.pending_approval is Some,
    ensures
        key_spec(app, key).1 == ActionView::Reply(
            key.key == KeyCode::Char('y') || key.key == KeyCode::Char('Y') || key.key
                == KeyCode::Enter,
        ),
{
}

/// `Super` with `C` copies what is selected.
pub proof fn law_copy_key(app: AppView, key: KeyEvent)
    requires
        app.mode is Chat,
        app.pending_approval is None,
        key.key == KeyCode::Char('c') || key.key == KeyCode::Char('C'),
        key.modifiers == Modifiers::Super,
    ensures
        key_spec(app, key).0 == app,
        selected_spec(app) matches SelectedView::Text(text) ==> key_spec(app, key).1
            == ActionView::Copy(text),
        selected_spec(app) is Nothing ==> key_spec(app, key).1 is Continue,
{
}

/// `Enter` alone submits the input as it is where nothing is suggested, or where the word at the
/// cursor is an attachment token already.
pub proof fn law_enter_submits(app: AppView)
    requires
        app.mode is Chat,
        app.pending_approval is None,
        !app.is_streaming,
        command_suggestions(app).len() == 0,
        attachment_suggestions(app).len() == 0 || (query_spec(
            app.input,
            app.input_cursor as int,
            '@',
        ) matches Some((_, _, token)) && exists|i: int|
            0 <= i < attachment_suggestions(app).len() && option_label(
                #[trigger] attachment_suggestions(app)[i],
            ) == token),
    ensures
        ({
            let (after, action) = key_spec(
                app,
                KeyEvent { key: KeyCode::Enter, modifiers: Modifiers::Plain },
            );
            &&& action is Submit
            &&& after.input == app.input
            &&& after.input_cursor == app.input_cursor
        }),
{
    let key = KeyEvent { key: KeyCode::Enter, modifiers: Modifiers::Plain };
    let deselected = deselected_spec(app, key);
    assert(command_suggestions(deselected) == command_suggestions(app));
    assert(attachment_suggestions(deselected) == attachment_suggestions(app));
}

/// The keys of the list of conversations: the arrows move by one and stop at both ends, `Enter`
/// asks for the conversation that the cursor is on and goes back to the chat, `Escape` just goes
/// back.
pub proof fn law_list_keys(app: AppView, items: Seq<MetaView>, cursor: usize, key: KeyEvent)
    requires
        app.mode == (ModeView::ResumePicker { items, cursor }),
        cursor < items.len(),
        items.len() <= usize::MAX,
    ensures
        ({
            let (after, action) = key_spec(app, key);
            match key.key {
                KeyCode::UpArrow => action is Continue && after.mode == (ModeView::ResumePicker {
                    items,
                    cursor: if cursor == 0 {
                        0
                    } else {
                        (cursor - 1) as usize
                    },
                }),
                KeyCode::DownArrow => action is Continue && after.mode == (ModeView::ResumePicker {
                    items,
                    cursor: if cursor == items.len() - 1 {
                        cursor
                    } else {
                        (cursor + 1) as usize
                    },
                }),
                KeyCode::Enter => after.mode is Chat && after.input.len() == 0
                    && after.input_cursor == 0 && (action matches ActionView::Load(request)
                    && request.id == items[cursor as int].id && request.summary
                    == items[cursor as int].summary),
                KeyCode::Escape => after == (AppView { mode: ModeView::Chat, ..app })
                    && action is Continue,
                _ => after == app && action is Continue,
            }
        }),
{
}

/// The mouse selects the lines that are drawn under it: in the row `y` of the message area a
/// drag starts at, and goes on to, the line that the row shows.
pub proof fn law_drag_selects_drawn_lines(app: AppView, down: MouseEvent, drag: MouseEvent)
    requires
        !app.left_was_pressed,
        !down.vert_wheel && down.left,
        !drag.vert_wheel && drag.left,
        1 <= down.y <= app.rows - 4,
        1 <= drag.y <= app.rows - 4,
        down.x != drag.x || down.y != drag.y,
        app.cached_display_lines.len() <= usize::MAX - app.rows,
    ensures
        ({
            let hidden = app.cached_display_lines.len() - (app.rows - 4);
            let first = if hidden > app.scroll_offset {
                hidden - app.scroll_offset
            } else {
                0
            };
            mouse_spec(mouse_spec(app, down), drag).selection == Some(
                (
                    (first + down.y - 1) as usize,
                    down.x as usize,
                    (first + drag.y - 1) as usize,
                    drag.x as usize,
                ),
            )
        }),
{
}

/// The mouse changes nothing but the selection and how far the lines are scrolled, and a press
/// or a drag outside the message area selects nothing.
pub proof fn law_mouse_keeps_the_rest(app: AppView, event: MouseEvent)
    ensures
        ({
            let after = mouse_spec(app, event);
            &&& after == (AppView {
                selection: after.selection,
                selecting: after.selecting,
                drag_origin: after.drag_origin,
                left_was_pressed: after.left_was_pressed,
                scroll_offset: after.scroll_offset,
                ..app
            })
            &&& event.vert_wheel ==> after.selection == app.selection && after.left_was_pressed
                == app.left_was_pressed && after.drag_origin == app.drag_origin
            &&& !event.vert_wheel ==> after.left_was_pressed == event.left
            &&& event.y < 1 || event.y >= app.rows - 3 ==> after.selection is None
                || after.selection == app.selection
            &&& !event.vert_wheel && event.left && !app.left_was_pressed ==> after.selection is None
            &&& !event.vert_wheel && !event.left ==> after.selection == app.selection
        }),
{
}

/// Going on with a drag moves only the end of the selection.
pub proof fn law_drag_keeps_its_start(app: AppView, event: MouseEvent)
    requires
        app.left_was_pressed,
        app.selecting,
        app.drag_origin is Some,
        !event.vert_wheel && event.left,
        1 <= event.y <= app.rows - 4,
    ensures
        app.selection matches Some((r0, c0, _, _)) ==> (mouse_spec(app, event).selection matches Some((
            a,
            b,
            _,
            d,
        )) && a == r0 && b == c0 && d == event.x),
{
}

} // verus!
