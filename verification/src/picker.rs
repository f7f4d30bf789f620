//! Suggestions for the word at the cursor: attachment tokens and slash commands.

use crate::app::{App, AppView};
use crate::attachment::{option_label, AttachmentOption};
use crate::text::{
    from_chars, is_white_space, is_white_space_spec, is_word, law_strip_leading, lower, occurs_at,
    repeat_spec, starts_with, str_eq, strip_leading, strip_leading_spec, suffix,
    to_ascii_lowercase, to_chars, trim, trim_spec,
};
use vstd::prelude::*;

verus! {

// ─── The word at the cursor ──────────────────────────────────────────────────

/// Where the word that reaches up to the index `k` starts.
pub open spec fn word_start(s: Seq<char>, k: int) -> int
    decreases k,
{
    if 0 < k <= s.len() && !is_white_space_spec(s[k - 1]) {
        word_start(s, k - 1)
    } else {
        k
    }
}

/// Where the word that reaches on from the index `k` ends.
pub open spec fn word_end(s: Seq<char>, k: int) -> int
    decreases s.len() - k,
{
    if 0 <= k < s.len() && !is_white_space_spec(s[k]) {
        word_end(s, k + 1)
    } else {
        k
    }
}

/// The word at the cursor, where it starts with `mark`: its start, its end and its text.
pub open spec fn query_spec(input: Seq<char>, cursor: int, mark: char) -> Option<
    (int, int, Seq<char>),
> {
    let start = word_start(input, cursor);
    let end = word_end(input, cursor);
    if cursor > input.len() || start == end || input[start] != mark {
        None
    } else {
        Some((start, end, input.subrange(start, end)))
    }
}

/// The word at the cursor is the stretch without white space around it: the white space next to
/// it, or the ends of the input, bound it.
pub proof fn law_word_at_cursor(s: Seq<char>, k: int)
    requires
        0 <= k <= s.len(),
    ensures
        0 <= word_start(s, k) <= k <= word_end(s, k) <= s.len(),
        forall|j: int|
            word_start(s, k) <= j < word_end(s, k) ==> !is_white_space_spec(#[trigger] s[j]),
        word_start(s, k) > 0 ==> is_white_space_spec(s[word_start(s, k) - 1]),
        word_end(s, k) < s.len() ==> is_white_space_spec(s[word_end(s, k)]),
{
    lemma_word_start(s, k);
    lemma_word_end(s, k);
}

proof fn lemma_word_start(s: Seq<char>, k: int)
    requires
        0 <= k <= s.len(),
    ensures
        0 <= word_start(s, k) <= k,
        forall|j: int| word_start(s, k) <= j < k ==> !is_white_space_spec(#[trigger] s[j]),
        word_start(s, k) > 0 ==> is_white_space_spec(s[word_start(s, k) - 1]),
    decreases k,
{
    if k > 0 && !is_white_space_spec(s[k - 1]) {
        lemma_word_start(s, k - 1);
    }
}

proof fn lemma_word_end(s: Seq<char>, k: int)
    requires
        0 <= k <= s.len(),
    ensures
        k <= word_end(s, k) <= s.len(),
        forall|j: int| k <= j < word_end(s, k) ==> !is_white_space_spec(#[trigger] s[j]),
        word_end(s, k) < s.len() ==> is_white_space_spec(s[word_end(s, k)]),
    decreases s.len() - k,
{
    if k < s.len() && !is_white_space_spec(s[k]) {
        lemma_word_end(s, k + 1);
    }
}

/// The word at the cursor, where it starts with `mark`.
pub fn word_query(input: &str, cursor: usize, mark: char) -> (r: Option<(usize, usize, String)>)
    ensures
        match r {
            Some((start, end, token)) => query_spec(input@, cursor as int, mark) == Some(
                (start as int, end as int, token@),
            ),
            None => query_spec(input@, cursor as int, mark) is None,
        },
        r matches Some((start, end, token)) ==> start < end <= input@.len() && token@.len() > 0,
{
    let chars: Vec<char> = to_chars(input);
    if cursor > chars.len() {
        return None;
    }
    let mut start: usize = cursor;
    while start > 0 && !is_white_space(chars[start - 1])
        invariant
            start <= cursor <= chars.len(),
            word_start(chars@, cursor as int) == word_start(chars@, start as int),
        decreases start,
    {
        start -= 1;
    }
    let mut end: usize = cursor;
    while end < chars.len() && !is_white_space(chars[end])
        invariant
            cursor <= end <= chars.len(),
            word_end(chars@, cursor as int) == word_end(chars@, end as int),
        decreases chars.len() - end,
    {
        end += 1;
    }
    if start == end {
        return None;
    }
    if chars[start] != mark {
        return None;
    }
    Some((start, end, from_chars(&chars, start, end)))
}

// ─── Attachment tokens ───────────────────────────────────────────────────────

/// What can be attached: the selection only where there is one.
pub open spec fn available_options(app: AppView) -> Seq<AttachmentOption> {
    let always = seq![AttachmentOption::Cwd, AttachmentOption::Tab];
    if trim_spec(app.context.selected_text).len() > 0 {
        always.push(AttachmentOption::Selection)
    } else {
        always
    }
}

/// Whether `option` fits what the user has typed of a token.
pub open spec fn option_fits(token: Seq<char>, option: AttachmentOption) -> bool {
    let query = lower(strip_leading_spec(token, '@'));
    let label = option_label(option);
    query.len() == 0 || occurs_at(label.skip(1), query, 0) || lower(label) == lower(token)
}

/// The options that fit `token`.
pub open spec fn fitting_options(options: Seq<AttachmentOption>, token: Seq<char>) -> Seq<
    AttachmentOption,
> {
    options.filter(|o: AttachmentOption| option_fits(token, o))
}

/// The attachments that are suggested for the word at the cursor.
pub open spec fn attachment_suggestions(app: AppView) -> Seq<AttachmentOption> {
    match query_spec(app.input, app.input_cursor as int, '@') {
        Some((_, _, token)) => fitting_options(available_options(app), token),
        None => Seq::empty(),
    }
}

// ─── Slash commands ──────────────────────────────────────────────────────────

/// A command that the user types in place of a message.
#[derive(Clone, Copy, PartialEq, Eq, Debug, Structural)]
pub enum SlashCommand {
    /// Start a new conversation.
    New,
    /// Go back to an earlier conversation.
    Resume,
}

/// How a command is typed.
pub open spec fn command_label(command: SlashCommand) -> Seq<char> {
    match command {
        SlashCommand::New => "/new"@,
        SlashCommand::Resume => "/resume"@,
    }
}

/// What the user is told of a command.
pub open spec fn command_description(command: SlashCommand) -> Seq<char> {
    match command {
        SlashCommand::New => "Start a new conversation"@,
        SlashCommand::Resume => "Resume a previous conversation"@,
    }
}

impl SlashCommand {
    /// How the command is typed.
    pub fn label(self) -> (r: &'static str)
        ensures
            r@ == command_label(self),
    {
        match self {
            SlashCommand::New => "/new",
            SlashCommand::Resume => "/resume",
        }
    }

    /// What the user is told of the command.
    pub fn description(self) -> (r: &'static str)
        ensures
            r@ == command_description(self),
    {
        match self {
            SlashCommand::New => "Start a new conversation",
            SlashCommand::Resume => "Resume a previous conversation",
        }
    }
}

/// All commands.
pub open spec fn all_commands() -> Seq<SlashCommand> {
    seq![SlashCommand::New, SlashCommand::Resume]
}

/// Whether `command` fits what the user has typed of it.
pub open spec fn command_fits(token: Seq<char>, command: SlashCommand) -> bool {
    let query = lower(token.skip(1));
    let label = command_label(command);
    query.len() == 0 || occurs_at(label.skip(1), query, 0) || label == token
}

/// The commands that fit `token`.
pub open spec fn fitting_commands(token: Seq<char>) -> Seq<SlashCommand> {
    all_commands().filter(|c: SlashCommand| command_fits(token, c))
}

/// The commands that are suggested for the word at the cursor.
pub open spec fn command_suggestions(app: AppView) -> Seq<SlashCommand> {
    match query_spec(app.input, app.input_cursor as int, '/') {
        Some((_, _, token)) => fitting_commands(token),
        None => Seq::empty(),
    }
}

// ─── Moving and accepting ────────────────────────────────────────────────────

/// The smaller of two numbers.
pub open spec fn min(a: int, b: int) -> int {
    if a < b {
        a
    } else {
        b
    }
}

/// The entry `delta` further on in a list of `len`, from `index`. Behind the last comes the first.
pub open spec fn moved_index(index: int, len: int, delta: int) -> int {
    (min(index, len - 1) + delta) % len
}

/// The state after the highlight has moved, `len` being the number of suggestions.
pub open spec fn moved_spec(app: AppView, len: int, delta: int) -> AppView {
    AppView {
        attachment_picker_index: if len == 0 {
            0
        } else {
            moved_index(app.attachment_picker_index as int, len, delta) as usize
        },
        ..app
    }
}

/// The state with `[start, end)` of the input replaced, and the cursor behind the replacement.
pub open spec fn replaced_spec(app: AppView, start: int, end: int, replacement: Seq<char>) -> AppView {
    AppView {
        input: app.input.take(start) + replacement + app.input.skip(end),
        input_cursor: (start + replacement.len()) as usize,
        attachment_picker_index: 0,
        ..app
    }
}

/// What an accepted token is replaced by: a space follows it unless white space is there already.
pub open spec fn token_replacement(input: Seq<char>, end: int, label: Seq<char>) -> Seq<char> {
    if end < input.len() && is_white_space_spec(input[end]) {
        label
    } else {
        label.push(' ')
    }
}

/// The state after the highlighted attachment has been accepted.
pub open spec fn accepted_attachment(app: AppView) -> AppView {
    let options = attachment_suggestions(app);
    match query_spec(app.input, app.input_cursor as int, '@') {
        Some((start, end, _)) => if options.len() == 0 {
            AppView { attachment_picker_index: 0, ..app }
        } else {
            let option = options[min(app.attachment_picker_index as int, options.len() - 1)];
            replaced_spec(app, start, end, token_replacement(app.input, end, option_label(option)))
        },
        None => AppView { attachment_picker_index: 0, ..app },
    }
}

/// The state after the highlighted command has been accepted.
pub open spec fn accepted_command(app: AppView) -> AppView {
    let commands = command_suggestions(app);
    match query_spec(app.input, app.input_cursor as int, '/') {
        Some((start, end, _)) => if commands.len() == 0 {
            AppView { attachment_picker_index: 0, ..app }
        } else {
            let command = commands[min(app.attachment_picker_index as int, commands.len() - 1)];
            replaced_spec(app, start, end, command_label(command))
        },
        None => AppView { attachment_picker_index: 0, ..app },
    }
}

fn fits_option(token: &str, option: AttachmentOption) -> (r: bool)
    ensures
        r == option_fits(token@, option),
{
    let query: String = to_ascii_lowercase(strip_leading(token, '@'));
    let label: &str = option.label();
    proof {
        reveal_strlit("@cwd");
        reveal_strlit("@tab");
        reveal_strlit("@selection");
    }
    query.as_str().is_empty() || starts_with(suffix(label, 1), query.as_str()) || str_eq(
        to_ascii_lowercase(label).as_str(),
        to_ascii_lowercase(token).as_str(),
    )
}

fn fits_command(token: &str, command: SlashCommand) -> (r: bool)
    requires
        token@.len() > 0,
    ensures
        r == command_fits(token@, command),
{
    let query: String = to_ascii_lowercase(suffix(token, 1));
    let label: &str = command.label();
    proof {
        reveal_strlit("/new");
        reveal_strlit("/resume");
    }
    query.as_str().is_empty() || starts_with(suffix(label, 1), query.as_str()) || str_eq(
        label,
        token,
    )
}

fn wrapped_index(index: usize, len: usize, delta: isize) -> (r: usize)
    requires
        0 < len < 4,
        min(index as int, len - 1) + delta <= isize::MAX,
    ensures
        r == moved_index(index as int, len as int, delta as int),
        r < len,
{
    let last: usize = len - 1;
    let current: isize = if index < last {
        index as isize
    } else {
        last as isize
    };
    let sum: isize = current + delta;
    match sum.checked_rem_euclid(len as isize) {
        Some(r) => r as usize,
        None => 0,
    }
}

impl App {
    /// What can be attached.
    pub fn available_attachment_options(&self) -> (r: Vec<AttachmentOption>)
        ensures
            r@ == available_options(self.deep_view()),
    {
        let mut options: Vec<AttachmentOption> = Vec::new();
        options.push(AttachmentOption::Cwd);
        options.push(AttachmentOption::Tab);
        assert(options@ =~= seq![AttachmentOption::Cwd, AttachmentOption::Tab]);
        if !trim(self.context.selected_text.as_str()).is_empty() {
            options.push(AttachmentOption::Selection);
        }
        options
    }

    /// The attachment token at the cursor: its start, its end and its text.
    pub fn current_attachment_query(&self) -> (r: Option<(usize, usize, String)>)
        ensures
            match r {
                Some((start, end, token)) => query_spec(
                    self.deep_view().input,
                    self.input_cursor as int,
                    '@',
                ) == Some((start as int, end as int, token@)),
                None => query_spec(self.deep_view().input, self.input_cursor as int, '@') is None,
            },
            r matches Some((start, end, token)) ==> start < end <= self.deep_view().input.len(),
    {
        word_query(self.input.as_str(), self.input_cursor, '@')
    }

    /// The attachments that are suggested for the word at the cursor.
    pub fn attachment_picker_options(&self) -> (r: Vec<AttachmentOption>)
        ensures
            r@ == attachment_suggestions(self.deep_view()),
            r.len() <= 3,
    {
        let token: String = match self.current_attachment_query() {
            Some((_, _, token)) => token,
            None => {
                return Vec::new();
            },
        };
        let options: Vec<AttachmentOption> = self.available_attachment_options();
        let ghost pred = |o: AttachmentOption| option_fits(token@, o);
        let mut out: Vec<AttachmentOption> = Vec::new();
        let mut i: usize = 0;
        proof {
            reveal(Seq::filter);
            assert(out@ =~= options@.take(0).filter(pred));
        }
        while i < options.len()
            invariant
                i <= options.len() <= 3,
                pred == (|o: AttachmentOption| option_fits(token@, o)),
                out@ == options@.take(i as int).filter(pred),
                out.len() <= i,
            decreases options.len() - i,
        {
            proof {
                assert(options@.take(i + 1) =~= options@.take(i as int).push(options@[i as int]));
                options@.take(i as int).lemma_filter_push(options@[i as int], pred);
            }
            if fits_option(token.as_str(), options[i]) {
                out.push(options[i]);
            }
            i += 1;
        }
        assert(options@.take(options@.len() as int) =~= options@);
        out
    }

    /// The slash command at the cursor: its start, its end and its text.
    pub fn current_slash_query(&self) -> (r: Option<(usize, usize, String)>)
        ensures
            match r {
                Some((start, end, token)) => query_spec(
                    self.deep_view().input,
                    self.input_cursor as int,
                    '/',
                ) == Some((start as int, end as int, token@)),
                None => query_spec(self.deep_view().input, self.input_cursor as int, '/') is None,
            },
            r matches Some((start, end, token)) ==> start < end <= self.deep_view().input.len()
                && token@.len() > 0,
    {
        word_query(self.input.as_str(), self.input_cursor, '/')
    }

    /// The commands that are suggested for the word at the cursor.
    pub fn slash_picker_options(&self) -> (r: Vec<SlashCommand>)
        ensures
            r@ == command_suggestions(self.deep_view()),
            r.len() <= 2,
    {
        let token: String = match self.current_slash_query() {
            Some((_, _, token)) => token,
            None => {
                return Vec::new();
            },
        };
        let mut out: Vec<SlashCommand> = Vec::new();
        let ghost pred = |c: SlashCommand| command_fits(token@, c);
        proof {
            let none = Seq::<SlashCommand>::empty();
            reveal(Seq::filter);
            assert(none.filter(pred) =~= none);
            none.lemma_filter_push(SlashCommand::New, pred);
            none.push(SlashCommand::New).lemma_filter_push(SlashCommand::Resume, pred);
            assert(none.push(SlashCommand::New).push(SlashCommand::Resume) =~= all_commands());
        }
        if fits_command(token.as_str(), SlashCommand::New) {
            out.push(SlashCommand::New);
        }
        if fits_command(token.as_str(), SlashCommand::Resume) {
            out.push(SlashCommand::Resume);
        }
        out
    }

    /// Move the highlight among the suggested attachments. Returns whether there are any.
    pub fn move_attachment_picker(&mut self, delta: isize) -> (r: bool)
        requires
            old(self).deep_view().wf(),
            ({
                let len = attachment_suggestions(old(self).deep_view()).len();
                len > 0 ==> min(old(self).attachment_picker_index as int, len - 1) + delta
                    <= isize::MAX
            }),
        ensures
            final(self).deep_view() == moved_spec(
                old(self).deep_view(),
                attachment_suggestions(old(self).deep_view()).len() as int,
                delta as int,
            ),
            final(self).deep_view().wf(),
            r == (attachment_suggestions(old(self).deep_view()).len() > 0),
    {
        let options: Vec<AttachmentOption> = self.attachment_picker_options();
        if options.len() == 0 {
            self.attachment_picker_index = 0;
            return false;
        }
        self.attachment_picker_index = wrapped_index(
            self.attachment_picker_index,
            options.len(),
            delta,
        );
        true
    }

    /// Move the highlight among the suggested commands. Returns whether there are any.
    pub fn move_slash_picker(&mut self, delta: isize) -> (r: bool)
        requires
            old(self).deep_view().wf(),
            ({
                let len = command_suggestions(old(self).deep_view()).len();
                len > 0 ==> min(old(self).attachment_picker_index as int, len - 1) + delta
                    <= isize::MAX
            }),
        ensures
            final(self).deep_view() == moved_spec(
                old(self).deep_view(),
                command_suggestions(old(self).deep_view()).len() as int,
                delta as int,
            ),
            final(self).deep_view().wf(),
            r == (command_suggestions(old(self).deep_view()).len() > 0),
    {
        let options: Vec<SlashCommand> = self.slash_picker_options();
        if options.len() == 0 {
            self.attachment_picker_index = 0;
            return false;
        }
        self.attachment_picker_index = wrapped_index(
            self.attachment_picker_index,
            options.len(),
            delta,
        );
        true
    }

    /// Replace `[start, end)` of the input, and put the cursor behind the replacement.
    fn replace_word(&mut self, start: usize, end: usize, replacement: &str)
        requires
            start <= end <= old(self).deep_view().input.len(),
        ensures
            final(self).deep_view() == replaced_spec(
                old(self).deep_view(),
                start as int,
                end as int,
                replacement@,
            ),
            old(self).deep_view().wf() ==> final(self).deep_view().wf(),
    {
        let ghost given = self.input@;
        let chars: Vec<char> = to_chars(self.input.as_str());
        let mut out: String = from_chars(&chars, 0, start);
        out.append(replacement);
        let cursor: usize = out.as_str().unicode_len();
        out.append(from_chars(&chars, end, chars.len()).as_str());
        proof {
            assert(given.subrange(0, start as int) =~= given.take(start as int));
            assert(given.subrange(end as int, given.len() as int) =~= given.skip(end as int));
        }
        self.input = out;
        self.input_cursor = cursor;
        self.attachment_picker_index = 0;
    }

    /// Put the highlighted attachment in place of the word at the cursor. Returns whether there
    /// was one.
    pub fn accept_attachment_picker(&mut self) -> (r: bool)
        requires
            old(self).deep_view().wf(),
        ensures
            final(self).deep_view() == accepted_attachment(old(self).deep_view()),
            final(self).deep_view().wf(),
            r == (attachment_suggestions(old(self).deep_view()).len() > 0),
    {
        let options: Vec<AttachmentOption> = self.attachment_picker_options();
        if options.len() == 0 {
            self.attachment_picker_index = 0;
            return false;
        }
        let (start, end, _) = match self.current_attachment_query() {
            Some(query) => query,
            None => {
                self.attachment_picker_index = 0;
                return false;
            },
        };
        let last: usize = options.len() - 1;
        let option: AttachmentOption = options[if self.attachment_picker_index < last {
            self.attachment_picker_index
        } else {
            last
        }];
        let chars: Vec<char> = to_chars(self.input.as_str());
        let mut replacement: String = option.label().to_string();
        if end == chars.len() || !is_white_space(chars[end]) {
            replacement.push(' ');
        }
        self.replace_word(start, end, replacement.as_str());
        true
    }

    /// Put the highlighted command in place of the word at the cursor. Returns whether there was
    /// one.
    pub fn accept_slash_picker(&mut self) -> (r: bool)
        requires
            old(self).deep_view().wf(),
        ensures
            final(self).deep_view() == accepted_command(old(self).deep_view()),
            final(self).deep_view().wf(),
            r == (command_suggestions(old(self).deep_view()).len() > 0),
    {
        let options: Vec<SlashCommand> = self.slash_picker_options();
        if options.len() == 0 {
            self.attachment_picker_index = 0;
            return false;
        }
        let (start, end, _) = match self.current_slash_query() {
            Some(query) => query,
            None => {
                self.attachment_picker_index = 0;
                return false;
            },
        };
        let last: usize = options.len() - 1;
        let option: SlashCommand = options[if self.attachment_picker_index < last {
            self.attachment_picker_index
        } else {
            last
        }];
        self.replace_word(start, end, option.label());
        true
    }
}

// ─── Laws ────────────────────────────────────────────────────────────────────

/// The highlight stays within the list, one step back undoes one step forward, and as many steps
/// as there are entries lead back to the start.
pub proof fn law_highlight_wraps(index: int, len: int)
    requires
        0 <= index < len,
    ensures
        0 <= moved_index(index, len, 1) < len,
        0 <= moved_index(index, len, -1) < len,
        moved_index(moved_index(index, len, 1), len, -1) == index,
        moved_index(moved_index(index, len, -1), len, 1) == index,
        moved_index(index, len, len) == index,
{
    if index == len - 1 {
        assert((index + 1) % len == 0) by (nonlinear_arith)
            requires
                index == len - 1,
                len > 0,
        ;
        assert((0 - 1) % len == len - 1) by (nonlinear_arith)
            requires
                len > 0,
        ;
    } else {
        vstd::arithmetic::div_mod::lemma_small_mod((index + 1) as nat, len as nat);
    }
    if index == 0 {
        assert((0 - 1) % len == len - 1) by (nonlinear_arith)
            requires
                len > 0,
        ;
        assert((len - 1 + 1) % len == 0) by (nonlinear_arith)
            requires
                len > 0,
        ;
    } else {
        vstd::arithmetic::div_mod::lemma_small_mod((index - 1) as nat, len as nat);
    }
    vstd::arithmetic::div_mod::lemma_small_mod(index as nat, len as nat);
    vstd::arithmetic::div_mod::lemma_mod_add_multiples_vanish(index, len);
}

/// The word around the cursor, in an input that is taken apart at the white space next to it: it
/// is asked about exactly where it starts with the mark, wherever in it the cursor stands.
pub proof fn law_word_around_cursor(
    before: Seq<char>,
    word: Seq<char>,
    behind: Seq<char>,
    cursor: int,
    mark: char,
)
    requires
        is_word(word),
        before.len() > 0 ==> is_white_space_spec(before.last()),
        behind.len() > 0 ==> is_white_space_spec(behind[0]),
        before.len() <= cursor <= before.len() + word.len(),
    ensures
        query_spec(before + word + behind, cursor, mark) == (if word[0] == mark {
            Some((before.len() as int, (before.len() + word.len()) as int, word))
        } else {
            None
        }),
{
    let s = before + word + behind;
    let a = before.len() as int;
    let b = (before.len() + word.len()) as int;
    law_word_at_cursor(s, cursor);
    let start = word_start(s, cursor);
    let end = word_end(s, cursor);
    assert forall|j: int| a <= j < b implies !is_white_space_spec(#[trigger] s[j]) by {
        assert(s[j] == word[j - a]);
        assert(!is_white_space_spec(word[j - a]));
    }
    if start < a {
        assert(s[a - 1] == before.last());
        assert(!is_white_space_spec(s[a - 1]));
    }
    if start > a {
        assert(is_white_space_spec(s[start - 1]));
    }
    if end < b {
        assert(is_white_space_spec(s[end]));
    }
    if end > b {
        assert(s[b] == behind[0]);
        assert(!is_white_space_spec(s[b]));
    }
    assert(s[a] == word[0]);
    assert(s.subrange(a, b) =~= word);
}

/// Accepting a suggested attachment puts its label in the place of the word at the cursor, and
/// the cursor behind it. What stands around the word stays, and a space follows the label where
/// none does.
pub proof fn law_accepting_an_attachment(
    app: AppView,
    before: Seq<char>,
    word: Seq<char>,
    behind: Seq<char>,
)
    requires
        app.input == before + word + behind,
        is_word(word),
        word[0] == '@',
        before.len() > 0 ==> is_white_space_spec(before.last()),
        behind.len() > 0 ==> is_white_space_spec(behind[0]),
        before.len() <= app.input_cursor <= before.len() + word.len(),
        attachment_suggestions(app).len() > 0,
        before.len() + 11 <= usize::MAX,
    ensures
        ({
            let after = accepted_attachment(app);
            let options = attachment_suggestions(app);
            let chosen = if app.attachment_picker_index < options.len() {
                options[app.attachment_picker_index as int]
            } else {
                options.last()
            };
            let label = match chosen {
                AttachmentOption::Cwd => "@cwd"@,
                AttachmentOption::Tab => "@tab"@,
                AttachmentOption::Selection => "@selection"@,
            };
            let put = if behind.len() == 0 {
                label.push(' ')
            } else {
                label
            };
            &&& after.input == before + put + behind
            &&& after.input_cursor == before.len() + put.len()
            &&& after.attachment_picker_index == 0
        }),
{
    let cursor = app.input_cursor as int;
    law_word_around_cursor(before, word, behind, cursor, '@');
    let n = before.len() as int;
    assert(app.input.take(n) =~= before);
    assert(app.input.skip(n + word.len()) =~= behind);
    if behind.len() > 0 {
        assert(app.input[n + word.len()] == behind[0]);
    }
    reveal_strlit("@cwd");
    reveal_strlit("@tab");
    reveal_strlit("@selection");
    assert("@cwd"@.len() == 4 && "@tab"@.len() == 4 && "@selection"@.len() == 10);
}

/// Accepting a suggested command puts its label in the place of the word at the cursor, and the
/// cursor behind it. What stands around the word stays.
pub proof fn law_accepting_a_command(
    app: AppView,
    before: Seq<char>,
    word: Seq<char>,
    behind: Seq<char>,
)
    requires
        app.input == before + word + behind,
        is_word(word),
        word[0] == '/',
        before.len() > 0 ==> is_white_space_spec(before.last()),
        behind.len() > 0 ==> is_white_space_spec(behind[0]),
        before.len() <= app.input_cursor <= before.len() + word.len(),
        command_suggestions(app).len() > 0,
        before.len() + 7 <= usize::MAX,
    ensures
        ({
            let after = accepted_command(app);
            let commands = command_suggestions(app);
            let chosen = if app.attachment_picker_index < commands.len() {
                commands[app.attachment_picker_index as int]
            } else {
                commands.last()
            };
            let label = match chosen {
                SlashCommand::New => "/new"@,
                SlashCommand::Resume => "/resume"@,
            };
            &&& after.input == before + label + behind
            &&& after.input_cursor == before.len() + label.len()
            &&& after.attachment_picker_index == 0
        }),
{
    let cursor = app.input_cursor as int;
    law_word_around_cursor(before, word, behind, cursor, '/');
    let n = before.len() as int;
    assert(app.input.take(n) =~= before);
    assert(app.input.skip(n + word.len()) =~= behind);
    reveal_strlit("/new");
    reveal_strlit("/resume");
    assert("/new"@.len() == 4 && "/resume"@.len() == 7);
}

proof fn lemma_front(label: Seq<char>, query: Seq<char>)
    ensures
        occurs_at(label, query, 0) <==> query.is_prefix_of(label),
{
    if query.len() <= label.len() {
        assert(label.subrange(0, query.len() as int) =~= query <==> query.is_prefix_of(label));
    }
}

/// An attachment is suggested for a word `@` with some letters exactly where its name starts with
/// those letters, large or small; the selection only where something is selected.
pub proof fn law_suggested_attachments(
    app: AppView,
    before: Seq<char>,
    query: Seq<char>,
    behind: Seq<char>,
    option: AttachmentOption,
)
    requires
        app.input == before + (seq!['@'] + query) + behind,
        is_word(seq!['@'] + query),
        query.len() > 0 ==> query[0] != '@',
        before.len() > 0 ==> is_white_space_spec(before.last()),
        behind.len() > 0 ==> is_white_space_spec(behind[0]),
        before.len() <= app.input_cursor <= before.len() + 1 + query.len(),
    ensures
        ({
            let name = match option {
                AttachmentOption::Cwd => "cwd"@,
                AttachmentOption::Tab => "tab"@,
                AttachmentOption::Selection => "selection"@,
            };
            let there = option != AttachmentOption::Selection || trim_spec(
                app.context.selected_text,
            ).len() > 0;
            attachment_suggestions(app).contains(option) <==> there && lower(query).is_prefix_of(
                name,
            )
        }),
{
    let token = seq!['@'] + query;
    law_word_around_cursor(before, token, behind, app.input_cursor as int, '@');
    lemma_option_fits(query, option);
    lemma_available(app, option);
    let options = available_options(app);
    let fits = |o: AttachmentOption| option_fits(token, o);
    assert(attachment_suggestions(app) == options.filter(fits));
    if options.contains(option) && fits(option) {
        let i = choose|i: int| 0 <= i < options.len() && options[i] == option;
        options.lemma_filter_contains(fits, i);
    }
    if attachment_suggestions(app).contains(option) {
        options.lemma_filter_contains_rev(fits, option);
        let i = choose|i: int|
            0 <= i < options.filter(fits).len() && options.filter(fits)[i] == option;
        options.lemma_filter_pred(fits, i);
    }
}

proof fn lemma_available(app: AppView, option: AttachmentOption)
    ensures
        available_options(app).contains(option) <==> option != AttachmentOption::Selection
            || trim_spec(app.context.selected_text).len() > 0,
{
    let options = available_options(app);
    assert(options[0] == AttachmentOption::Cwd && options[1] == AttachmentOption::Tab);
    if trim_spec(app.context.selected_text).len() > 0 {
        assert(options[2] == AttachmentOption::Selection);
    } else {
        assert(options.len() == 2);
    }
}

proof fn lemma_option_fits(query: Seq<char>, option: AttachmentOption)
    requires
        query.len() > 0 ==> query[0] != '@',
    ensures
        option_fits(seq!['@'] + query, option) <==> lower(query).is_prefix_of(
            match option {
                AttachmentOption::Cwd => "cwd"@,
                AttachmentOption::Tab => "tab"@,
                AttachmentOption::Selection => "selection"@,
            },
        ),
{
    let token = seq!['@'] + query;
    let name = match option {
        AttachmentOption::Cwd => "cwd"@,
        AttachmentOption::Tab => "tab"@,
        AttachmentOption::Selection => "selection"@,
    };
    let label = option_label(option);
    lemma_small_label(option);
    law_strip_leading('@', 1, query);
    assert(repeat_spec('@', 1) + query =~= token);
    lemma_front(name, lower(query));
    assert(lower(token) =~= seq!['@'] + lower(query));
    if lower(label) == lower(token) {
        assert(label.skip(1) =~= lower(token).skip(1));
        assert(lower(token).skip(1) =~= lower(query));
    }
}

proof fn lemma_small_label(option: AttachmentOption)
    ensures
        ({
            let name = match option {
                AttachmentOption::Cwd => "cwd"@,
                AttachmentOption::Tab => "tab"@,
                AttachmentOption::Selection => "selection"@,
            };
            option_label(option).skip(1) == name && lower(option_label(option)) == option_label(
                option,
            )
        }),
{
    reveal_strlit("cwd");
    reveal_strlit("tab");
    reveal_strlit("selection");
    reveal_strlit("@cwd");
    reveal_strlit("@tab");
    reveal_strlit("@selection");
    let label = option_label(option);
    match option {
        AttachmentOption::Cwd => {
            assert(label.skip(1) =~= "cwd"@);
        },
        AttachmentOption::Tab => {
            assert(label.skip(1) =~= "tab"@);
        },
        AttachmentOption::Selection => {
            assert(label.skip(1) =~= "selection"@);
        },
    }
    assert(lower(label) =~= label);
}

/// A command is suggested for a word `/` with some letters exactly where its name starts with
/// those letters, large or small.
pub proof fn law_suggested_commands(
    app: AppView,
    before: Seq<char>,
    query: Seq<char>,
    behind: Seq<char>,
    command: SlashCommand,
)
    requires
        app.input == before + (seq!['/'] + query) + behind,
        is_word(seq!['/'] + query),
        before.len() > 0 ==> is_white_space_spec(before.last()),
        behind.len() > 0 ==> is_white_space_spec(behind[0]),
        before.len() <= app.input_cursor <= before.len() + 1 + query.len(),
    ensures
        ({
            let name = match command {
                SlashCommand::New => "new"@,
                SlashCommand::Resume => "resume"@,
            };
            command_suggestions(app).contains(command) <==> lower(query).is_prefix_of(name)
        }),
{
    let token = seq!['/'] + query;
    let name = match command {
        SlashCommand::New => "new"@,
        SlashCommand::Resume => "resume"@,
    };
    reveal_strlit("new");
    reveal_strlit("resume");
    reveal_strlit("/new");
    reveal_strlit("/resume");
    law_word_around_cursor(before, token, behind, app.input_cursor as int, '/');
    let label = command_label(command);
    assert(label =~= seq!['/'] + name);
    assert(label.skip(1) =~= name);
    assert(token.skip(1) =~= query);
    lemma_front(name, lower(query));
    assert(lower(name) =~= name);
    assert(command_fits(token, command) <==> lower(query).is_prefix_of(name));
    let fits = |c: SlashCommand| command_fits(token, c);
    let all = all_commands();
    assert(all[0] == SlashCommand::New && all[1] == SlashCommand::Resume);
    assert(command_suggestions(app) == all.filter(fits));
    if fits(command) {
        let i = if command == SlashCommand::New {
            0int
        } else {
            1int
        };
        assert(all[i] == command);
        all.lemma_filter_contains(fits, i);
    }
    if command_suggestions(app).contains(command) {
        let i = choose|i: int| 0 <= i < all.filter(fits).len() && all.filter(fits)[i] == command;
        all.lemma_filter_pred(fits, i);
    }
}

/// Nothing is suggested for a word without a mark in front.
pub proof fn law_other_words_suggest_nothing(
    app: AppView,
    before: Seq<char>,
    word: Seq<char>,
    behind: Seq<char>,
)
    requires
        app.input == before + word + behind,
        is_word(word),
        before.len() > 0 ==> is_white_space_spec(before.last()),
        behind.len() > 0 ==> is_white_space_spec(behind[0]),
        before.len() <= app.input_cursor <= before.len() + word.len(),
    ensures
        word[0] != '@' ==> attachment_suggestions(app).len() == 0,
        word[0] != '/' ==> command_suggestions(app).len() == 0,
{
    law_word_around_cursor(before, word, behind, app.input_cursor as int, '@');
    law_word_around_cursor(before, word, behind, app.input_cursor as int, '/');
}

/// One step forward goes to the next entry and from the last to the first, one step back to the
/// entry in front and from the first to the last.
pub proof fn law_highlight_steps(index: int, len: int)
    requires
        0 <= index < len,
    ensures
        moved_index(index, len, 1) == (if index + 1 < len {
            index + 1
        } else {
            0
        }),
        moved_index(index, len, -1) == (if index > 0 {
            index - 1
        } else {
            len - 1
        }),
{
    if index + 1 < len {
        vstd::arithmetic::div_mod::lemma_small_mod((index + 1) as nat, len as nat);
    } else {
        vstd::arithmetic::div_mod::lemma_mod_self_0(len);
    }
    if index > 0 {
        vstd::arithmetic::div_mod::lemma_small_mod((index - 1) as nat, len as nat);
    } else {
        assert((0 - 1) % len == len - 1) by (nonlinear_arith)
            requires
                len > 0,
        ;
    }
}

/// What the picker says of the commands, which come in this order.
pub proof fn law_commands_are_described()
    ensures
        command_label(SlashCommand::New) == "/new"@,
        command_label(SlashCommand::Resume) == "/resume"@,
        command_description(SlashCommand::New) == "Start a new conversation"@,
        command_description(SlashCommand::Resume) == "Resume a previous conversation"@,
        all_commands() == seq![SlashCommand::New, SlashCommand::Resume],
{
}

} // verus!
