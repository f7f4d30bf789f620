//! The agent: it asks the model, runs the tools that the model asks for, and lets the user decide
//! about those that change something.

use crate::prompt::{ApiMessage, ApiView, ToolCall, ToolCallView};
use crate::shell::{
    is_plain_text, plain_reads, shell_exec_approval_summary, shell_exec_spec,
};
use crate::stream::{StreamMsg, StreamView};
use crate::text::{str_eq, take_chars, take_spec, trim_spec};
use vstd::prelude::*;

verus! {

// ─── Arguments of a tool ─────────────────────────────────────────────────────

/// The members of the JSON object that `serde_json` reads from a text: each with its name, and its
/// text where it is a string. There are none where the text is not a JSON object.
pub uninterp spec fn json_fields_spec(text: Seq<char>) -> Option<
    Seq<(Seq<char>, Option<Seq<char>>)>,
>;

/// `serde_json::from_str`, for a `serde_json::Value`: the members of the JSON object `text`, in the
/// order in which `serde_json` keeps them, each with its name, and with its text where
/// `Value::as_str` has one. Which members a text has depends on it alone, and stays unsaid.
#[verifier::external_body]
pub(crate) fn json_fields(text: &str) -> (r: Option<Vec<(String, Option<String>)>>)
    ensures
        r.deep_view() == json_fields_spec(text@),
{
    match serde_json::from_str(text) {
        Ok(serde_json::Value::Object(members)) => Some(
            members
                .into_iter()
                .map(|(name, value)| (name, value.as_str().map(|text| text.to_string())))
                .collect(),
        ),
        _ => None,
    }
}

/// The arguments of a tool call: names, each with its text where it is a string.
pub struct ToolArgs {
    pub fields: Vec<(String, Option<String>)>,
}

impl DeepView for ToolArgs {
    type V = Seq<(Seq<char>, Option<Seq<char>>)>;

    open spec fn deep_view(&self) -> Seq<(Seq<char>, Option<Seq<char>>)> {
        self.fields.deep_view()
    }
}

/// The arguments in a JSON text: those that are not an object count as none.
pub open spec fn args_spec(fields: Option<Seq<(Seq<char>, Option<Seq<char>>)>>) -> Seq<
    (Seq<char>, Option<Seq<char>>),
> {
    match fields {
        Some(f) => f,
        None => Seq::empty(),
    }
}

/// The arguments of a tool call, from the members of the JSON object.
pub fn args_from_fields(fields: Option<Vec<(String, Option<String>)>>) -> (r: ToolArgs)
    ensures
        r.deep_view() == args_spec(fields.deep_view()),
{
    match fields {
        Some(fields) => ToolArgs { fields },
        None => {
            let r: ToolArgs = ToolArgs { fields: Vec::new() };
            assert(r.deep_view() =~= Seq::empty());
            r
        },
    }
}

/// The arguments of a tool call, from JSON text.
pub fn parse_args(text: &str) -> (r: ToolArgs)
    ensures
        r.deep_view() == args_spec(json_fields_spec(text@)),
{
    args_from_fields(json_fields(text))
}

/// The index from `i` on of the argument `key`.
pub open spec fn field_index(
    args: Seq<(Seq<char>, Option<Seq<char>>)>,
    key: Seq<char>,
    i: int,
) -> Option<int>
    decreases args.len() - i,
{
    if i < 0 || i >= args.len() {
        None
    } else if args[i].0 == key {
        Some(i)
    } else {
        field_index(args, key, i + 1)
    }
}

/// The text of an optional string.
pub open spec fn text_or_nothing(text: Option<Seq<char>>) -> Seq<char> {
    match text {
        Some(t) => t,
        None => Seq::empty(),
    }
}

/// The text of the argument `key`: nothing where it is not there, or not a string.
pub open spec fn field_text(args: Seq<(Seq<char>, Option<Seq<char>>)>, key: Seq<char>) -> Seq<
    char,
> {
    match field_index(args, key, 0) {
        Some(i) => text_or_nothing(args[i].1),
        None => Seq::empty(),
    }
}

/// How many characters of an argument the user is shown.
pub const MAX_ARGS_PREVIEW: usize = 40;

/// How many characters of an argument the user is asked about.
pub const MAX_APPROVAL_PREVIEW: usize = 60;

/// What is shown of the arguments: the path, or else the first argument.
pub open spec fn preview_spec(args: Seq<(Seq<char>, Option<Seq<char>>)>) -> Seq<char> {
    let shown = match field_index(args, "path"@, 0) {
        Some(i) => text_or_nothing(args[i].1),
        None => if args.len() > 0 {
            text_or_nothing(args[0].1)
        } else {
            Seq::empty()
        },
    };
    take_spec(shown, MAX_ARGS_PREVIEW as nat)
}

impl ToolArgs {
    fn index_of(&self, key: &str) -> (r: Option<usize>)
        ensures
            match r {
                Some(i) => i < self.fields.len() && field_index(self.deep_view(), key@, 0) == Some(
                    i as int,
                ),
                None => field_index(self.deep_view(), key@, 0) is None,
            },
    {
        let ghost all = self.deep_view();
        let mut i: usize = 0;
        while i < self.fields.len()
            invariant
                i <= self.fields.len(),
                all == self.deep_view(),
                field_index(all, key@, 0) == field_index(all, key@, i as int),
            decreases self.fields.len() - i,
        {
            assert(all[i as int].0 == self.fields@[i as int].0@);
            if str_eq(self.fields[i].0.as_str(), key) {
                return Some(i);
            }
            i += 1;
        }
        None
    }

    fn text_at(&self, i: usize) -> (r: String)
        requires
            i < self.fields.len(),
        ensures
            r@ == text_or_nothing(self.deep_view()[i as int].1),
    {
        match &self.fields[i].1 {
            Some(t) => t.clone(),
            None => String::new(),
        }
    }

    /// The text of the argument `key`: nothing where it is not there, or not a string.
    pub fn text(&self, key: &str) -> (r: String)
        ensures
            r@ == field_text(self.deep_view(), key@),
    {
        match self.index_of(key) {
            Some(i) => self.text_at(i),
            None => String::new(),
        }
    }

    /// What is shown of the arguments: the start of the path, or else of the first argument.
    pub fn preview(&self) -> (r: String)
        ensures
            r@ == preview_spec(self.deep_view()),
    {
        assert(self.deep_view().len() == self.fields@.len());
        let shown: String = match self.index_of("path") {
            Some(i) => self.text_at(i),
            None => {
                if self.fields.len() > 0 {
                    self.text_at(0)
                } else {
                    String::new()
                }
            },
        };
        take_chars(shown.as_str(), MAX_ARGS_PREVIEW)
    }
}

// ─── Approval ────────────────────────────────────────────────────────────────

/// A label, and the start of the argument `key`.
pub open spec fn asked_about(
    label: Seq<char>,
    args: Seq<(Seq<char>, Option<Seq<char>>)>,
    key: Seq<char>,
) -> Seq<char> {
    label + take_spec(field_text(args, key), MAX_APPROVAL_PREVIEW as nat)
}

/// The line with which the user is asked about a tool call. There is none for a tool that only
/// reads; for a shell command it depends on the command.
pub open spec fn approval_spec(
    name: Seq<char>,
    args: Seq<(Seq<char>, Option<Seq<char>>)>,
) -> Option<Seq<char>> {
    if name == "shell_exec"@ {
        shell_exec_spec(field_text(args, "command"@))
    } else if name == "shell_bg"@ {
        Some(asked_about("shell_bg: "@, args, "command"@))
    } else if name == "fs_write"@ {
        Some(asked_about("write file: "@, args, "path"@))
    } else if name == "fs_patch"@ {
        Some(asked_about("patch file: "@, args, "path"@))
    } else if name == "fs_mkdir"@ {
        Some(asked_about("mkdir: "@, args, "path"@))
    } else if name == "fs_delete"@ {
        Some(asked_about("delete: "@, args, "path"@))
    } else {
        None
    }
}

fn ask_about(label: &str, args: &ToolArgs, key: &str) -> (r: String)
    ensures
        r@ == asked_about(label@, args.deep_view(), key@),
{
    let mut out: String = label.to_string();
    out.append(take_chars(args.text(key).as_str(), MAX_APPROVAL_PREVIEW).as_str());
    out
}

/// A short line for the user where the named tool changes something, so that it needs approval.
/// There is none for tools that only read.
pub fn approval_summary(name: &str, args: &ToolArgs) -> (r: Option<String>)
    ensures
        r.deep_view() == approval_spec(name@, args.deep_view()),
        // A command whose characters mean only themselves is judged by its words.
        name@ == "shell_exec"@ && is_plain_text(
            trim_spec(field_text(args.deep_view(), "command"@)),
        ) ==> (r is None) == plain_reads(field_text(args.deep_view(), "command"@)),
{
    if str_eq(name, "shell_exec") {
        shell_exec_approval_summary(args.text("command").as_str())
    } else if str_eq(name, "shell_bg") {
        Some(ask_about("shell_bg: ", args, "command"))
    } else if str_eq(name, "fs_write") {
        Some(ask_about("write file: ", args, "path"))
    } else if str_eq(name, "fs_patch") {
        Some(ask_about("patch file: ", args, "path"))
    } else if str_eq(name, "fs_mkdir") {
        Some(ask_about("mkdir: ", args, "path"))
    } else if str_eq(name, "fs_delete") {
        Some(ask_about("delete: ", args, "path"))
    } else {
        None
    }
}

// ─── The agent ───────────────────────────────────────────────────────────────

/// How often the model is asked before the agent gives up.
pub const MAX_ROUNDS: usize = 15;

/// What the agent waits for.
#[derive(Clone, Copy, PartialEq, Eq, Debug, Structural)]
pub enum Phase {
    /// The answer of the model.
    Asking,
    /// The decision of the user about the current call.
    Approving,
    /// The result of the current call.
    Running,
    /// Nothing: the turn is over.
    Finished,
}

/// The agent during a turn.
pub struct Agent {
    /// The exchange with the model so far.
    pub messages: Vec<ApiMessage>,
    /// How often the model has been asked.
    pub round: usize,
    /// The tool calls of the current round.
    pub calls: Vec<ToolCall>,
    /// The index of the current call.
    pub current: usize,
    pub phase: Phase,
    /// Whether text of the current answer has been passed on.
    pub sent_start: bool,
}

/// What an [`Agent`] holds.
#[verifier::ext_equal]
pub struct AgentView {
    pub messages: Seq<ApiView>,
    pub round: nat,
    pub calls: Seq<ToolCallView>,
    pub current: nat,
    pub phase: Phase,
    pub sent_start: bool,
}

impl DeepView for Agent {
    type V = AgentView;

    open spec fn deep_view(&self) -> AgentView {
        AgentView {
            messages: self.messages.deep_view(),
            round: self.round as nat,
            calls: self.calls.deep_view(),
            current: self.current as nat,
            phase: self.phase,
            sent_start: self.sent_start,
        }
    }
}

/// The result of a tool call as the model gets it.
pub open spec fn is_result_of(message: ApiView, call: ToolCallView) -> bool {
    message matches ApiView::ToolResult { id, .. } && id == call.id
}

impl AgentView {
    /// What holds of every state: the model is not asked too often, a decision or a result
    /// belongs to one of the calls, and while calls are carried out the exchange ends with the
    /// calls and one result for each of those that are done.
    pub open spec fn wf(self) -> bool {
        &&& self.round <= MAX_ROUNDS
        &&& self.phase == Phase::Approving || self.phase == Phase::Running ==> {
            &&& self.current < self.calls.len()
            &&& self.answered()
        }
    }

    /// The exchange ends with the calls of the round and one result for each call in front of the
    /// current one.
    pub open spec fn answered(self) -> bool {
        &&& self.current <= self.calls.len()
        &&& self.messages.len() > self.current
        &&& self.messages[self.messages.len() - self.current - 1] == ApiView::AssistantToolCalls(
            self.calls,
        )
        &&& forall|i: int|
            0 <= i < self.current ==> is_result_of(
                #[trigger] self.messages[self.messages.len() - self.current + i],
                self.calls[i],
            )
    }
}

/// What happens to the agent.
pub enum AgentEvent {
    /// The model has answered, and asks for these tools. Its text has been passed on already.
    Replied(Vec<ToolCall>),
    /// The model could not be asked.
    AskFailed(String),
    /// The user has decided.
    Decided(bool),
    /// The tool has finished.
    ToolSucceeded(String),
    /// The tool has failed.
    ToolErred(String),
}

/// What an [`AgentEvent`] holds.
#[verifier::ext_equal]
pub enum AgentEventView {
    Replied(Seq<ToolCallView>),
    AskFailed(Seq<char>),
    Decided(bool),
    ToolSucceeded(Seq<char>),
    ToolErred(Seq<char>),
}

impl DeepView for AgentEvent {
    type V = AgentEventView;

    open spec fn deep_view(&self) -> AgentEventView {
        match self {
            AgentEvent::Replied(calls) => AgentEventView::Replied(calls.deep_view()),
            AgentEvent::AskFailed(e) => AgentEventView::AskFailed(e@),
            AgentEvent::Decided(approved) => AgentEventView::Decided(*approved),
            AgentEvent::ToolSucceeded(result) => AgentEventView::ToolSucceeded(result@),
            AgentEvent::ToolErred(e) => AgentEventView::ToolErred(e@),
        }
    }
}

/// What the agent needs done next.
pub enum AgentAction {
    /// Ask the model.
    Ask,
    /// Wait for the decision of the user.
    AwaitDecision,
    /// Run a tool.
    Run(ToolCall),
    /// Nothing: the turn is over.
    Stop,
    /// Nothing: the event did not fit.
    Ignored,
}

/// What an [`AgentAction`] holds.
#[verifier::ext_equal]
pub enum AgentActionView {
    Ask,
    AwaitDecision,
    Run(ToolCallView),
    Stop,
    Ignored,
}

impl DeepView for AgentAction {
    type V = AgentActionView;

    open spec fn deep_view(&self) -> AgentActionView {
        match self {
            AgentAction::Ask => AgentActionView::Ask,
            AgentAction::AwaitDecision => AgentActionView::AwaitDecision,
            AgentAction::Run(call) => AgentActionView::Run(call.deep_view()),
            AgentAction::Stop => AgentActionView::Stop,
            AgentAction::Ignored => AgentActionView::Ignored,
        }
    }
}

/// What comes of an event: what is passed on to the chat, and then what is to be done.
pub struct Step {
    pub send: Vec<StreamMsg>,
    pub action: AgentAction,
}

/// What a [`Step`] holds.
#[verifier::ext_equal]
pub struct StepView {
    pub send: Seq<StreamView>,
    pub action: AgentActionView,
}

impl DeepView for Step {
    type V = StepView;

    open spec fn deep_view(&self) -> StepView {
        StepView { send: self.send.deep_view(), action: self.action.deep_view() }
    }
}

/// Whether, and with which line, the user is asked about a call.
pub open spec fn call_approval(call: ToolCallView) -> Option<Seq<char>> {
    approval_spec(call.name, args_spec(json_fields_spec(call.arguments)))
}

/// What the chat is told when a call starts.
pub open spec fn start_event(call: ToolCallView) -> StreamView {
    StreamView::ToolStart {
        name: call.name,
        args_preview: preview_spec(args_spec(json_fields_spec(call.arguments))),
    }
}

/// The next round: the model is asked again, unless that was done often enough or the user has
/// left.
pub open spec fn next_round_spec(
    agent: AgentView,
    send: Seq<StreamView>,
    cancelled: bool,
) -> (AgentView, StepView) {
    if agent.round < MAX_ROUNDS && !cancelled {
        (
            AgentView {
                round: agent.round + 1,
                phase: Phase::Asking,
                sent_start: false,
                ..agent
            },
            StepView { send, action: AgentActionView::Ask },
        )
    } else {
        (
            AgentView { phase: Phase::Finished, ..agent },
            StepView { send: send.push(StreamView::Done), action: AgentActionView::Stop },
        )
    }
}

/// The next call: it is run, or the user is asked about it. Behind the last one, and once the user
/// has left, comes the next round.
pub open spec fn next_call_spec(
    agent: AgentView,
    send: Seq<StreamView>,
    cancelled: bool,
) -> (AgentView, StepView) {
    if agent.current < agent.calls.len() && !cancelled {
        let call = agent.calls[agent.current as int];
        match call_approval(call) {
            Some(summary) => (
                AgentView { phase: Phase::Approving, ..agent },
                StepView {
                    send: send.push(StreamView::ApprovalRequired { summary }),
                    action: AgentActionView::AwaitDecision,
                },
            ),
            None => (
                AgentView { phase: Phase::Running, ..agent },
                StepView {
                    send: send.push(start_event(call)),
                    action: AgentActionView::Run(call),
                },
            ),
        }
    } else {
        next_round_spec(agent, send, cancelled)
    }
}

/// The current call is done, and the model gets `content` for it.
pub open spec fn answer_spec(
    agent: AgentView,
    send: Seq<StreamView>,
    content: Seq<char>,
    cancelled: bool,
) -> (AgentView, StepView) {
    let answered = AgentView {
        messages: agent.messages.push(
            ApiView::ToolResult { id: agent.calls[agent.current as int].id, content },
        ),
        current: agent.current + 1,
        ..agent
    };
    next_call_spec(answered, send, cancelled)
}

/// What comes of an event. One that does not fit changes nothing.
pub open spec fn step_spec(agent: AgentView, event: AgentEventView, cancelled: bool) -> (
    AgentView,
    StepView,
) {
    match (agent.phase, event) {
        (Phase::Asking, AgentEventView::Replied(calls)) => if calls.len() == 0 {
            (
                AgentView { phase: Phase::Finished, ..agent },
                StepView { send: seq![StreamView::Done], action: AgentActionView::Stop },
            )
        } else {
            next_call_spec(
                AgentView {
                    messages: agent.messages.push(ApiView::AssistantToolCalls(calls)),
                    calls,
                    current: 0,
                    ..agent
                },
                Seq::empty(),
                cancelled,
            )
        },
        (Phase::Asking, AgentEventView::AskFailed(e)) => (
            AgentView { phase: Phase::Finished, ..agent },
            StepView { send: seq![StreamView::Failed(e)], action: AgentActionView::Stop },
        ),
        (Phase::Approving, AgentEventView::Decided(approved)) => if approved {
            let call = agent.calls[agent.current as int];
            (
                AgentView { phase: Phase::Running, ..agent },
                StepView { send: seq![start_event(call)], action: AgentActionView::Run(call) },
            )
        } else {
            answer_spec(
                agent,
                seq![StreamView::ToolFailed { error: "Operation rejected by user."@ }],
                "Error: user rejected the operation."@,
                cancelled,
            )
        },
        (Phase::Running, AgentEventView::ToolSucceeded(result)) => answer_spec(
            agent,
            seq![StreamView::ToolDone { result_preview: Seq::empty() }],
            result,
            cancelled,
        ),
        (Phase::Running, AgentEventView::ToolErred(e)) => answer_spec(
            agent,
            seq![StreamView::ToolFailed { error: e }],
            "Error: "@ + e,
            cancelled,
        ),
        _ => (agent, StepView { send: Seq::empty(), action: AgentActionView::Ignored }),
    }
}

/// The agent at the start of a turn.
pub open spec fn new_agent(messages: Seq<ApiView>) -> AgentView {
    AgentView {
        messages,
        round: 0,
        calls: Seq::empty(),
        current: 0,
        phase: Phase::Finished,
        sent_start: false,
    }
}

/// What the chat is told of a piece of text: the first one of an answer starts it.
pub open spec fn token_events(sent_start: bool, token: Seq<char>) -> Seq<StreamView> {
    if sent_start {
        seq![StreamView::Token(token)]
    } else {
        seq![StreamView::AssistantStart, StreamView::Token(token)]
    }
}

fn push_event(send: &mut Vec<StreamMsg>, event: StreamMsg)
    ensures
        final(send).deep_view() == old(send).deep_view().push(event.deep_view()),
{
    let ghost before = send.deep_view();
    let ghost view = event.deep_view();
    send.push(event);
    assert(send.deep_view() =~= before.push(view));
}

fn one_event(event: StreamMsg) -> (r: Vec<StreamMsg>)
    ensures
        r.deep_view() == seq![event.deep_view()],
{
    let mut send: Vec<StreamMsg> = Vec::new();
    assert(send.deep_view() =~= Seq::empty());
    let ghost view = event.deep_view();
    push_event(&mut send, event);
    assert(send.deep_view() =~= seq![view]);
    send
}

fn no_events() -> (r: Vec<StreamMsg>)
    ensures
        r.deep_view() == Seq::<StreamView>::empty(),
{
    let send: Vec<StreamMsg> = Vec::new();
    assert(send.deep_view() =~= Seq::empty());
    send
}

fn copy_calls(calls: &Vec<ToolCall>) -> (out: Vec<ToolCall>)
    ensures
        out.deep_view() == calls.deep_view(),
{
    let mut out: Vec<ToolCall> = Vec::new();
    let mut i: usize = 0;
    while i < calls.len()
        invariant
            i <= calls.len(),
            out@.len() == i,
            forall|j: int| 0 <= j < i ==> (#[trigger] out@[j]).deep_view() == calls@[j].deep_view(),
        decreases calls.len() - i,
    {
        out.push(calls[i].clone());
        i += 1;
    }
    assert(out.deep_view() =~= calls.deep_view());
    out
}

impl Agent {
    /// The agent at the start of a turn, `messages` being what the model is asked with.
    pub fn new(messages: Vec<ApiMessage>) -> (r: Agent)
        ensures
            r.deep_view() == new_agent(messages.deep_view()),
            r.deep_view().wf(),
    {
        let r: Agent = Agent {
            messages,
            round: 0,
            calls: Vec::new(),
            current: 0,
            phase: Phase::Finished,
            sent_start: false,
        };
        assert(r.calls.deep_view() =~= Seq::empty());
        r
    }

    /// Start the turn. `cancelled` says whether the user has left.
    pub fn start(&mut self, cancelled: bool) -> (r: Step)
        requires
            old(self).deep_view().wf(),
        ensures
            (final(self).deep_view(), r.deep_view()) == next_round_spec(
                old(self).deep_view(),
                Seq::empty(),
                cancelled,
            ),
            final(self).deep_view().wf(),
    {
        self.next_round(no_events(), cancelled)
    }

    /// Pass on a piece of text of the answer.
    pub fn on_token(&mut self, token: &str) -> (r: Vec<StreamMsg>)
        ensures
            r.deep_view() == token_events(old(self).sent_start, token@),
            final(self).deep_view() == (AgentView {
                sent_start: true,
                ..old(self).deep_view()
            }),
    {
        let mut send: Vec<StreamMsg> = no_events();
        if !self.sent_start {
            push_event(&mut send, StreamMsg::AssistantStart);
            self.sent_start = true;
        }
        push_event(&mut send, StreamMsg::Token(token.to_string()));
        assert(send.deep_view() =~= token_events(old(self).sent_start, token@));
        send
    }

    fn next_round(&mut self, send: Vec<StreamMsg>, cancelled: bool) -> (r: Step)
        requires
            old(self).deep_view().round <= MAX_ROUNDS,
        ensures
            (final(self).deep_view(), r.deep_view()) == next_round_spec(
                old(self).deep_view(),
                send.deep_view(),
                cancelled,
            ),
            final(self).deep_view().wf(),
    {
        if self.round < MAX_ROUNDS && !cancelled {
            self.round += 1;
            self.phase = Phase::Asking;
            self.sent_start = false;
            Step { send, action: AgentAction::Ask }
        } else {
            self.phase = Phase::Finished;
            let mut send: Vec<StreamMsg> = send;
            push_event(&mut send, StreamMsg::Done);
            Step { send, action: AgentAction::Stop }
        }
    }

    fn next_call(&mut self, send: Vec<StreamMsg>, cancelled: bool) -> (r: Step)
        requires
            old(self).deep_view().round <= MAX_ROUNDS,
            old(self).deep_view().answered(),
        ensures
            (final(self).deep_view(), r.deep_view()) == next_call_spec(
                old(self).deep_view(),
                send.deep_view(),
                cancelled,
            ),
            final(self).deep_view().wf(),
    {
        assert(self.calls.deep_view().len() == self.calls@.len());
        if self.current < self.calls.len() && !cancelled {
            let call: ToolCall = self.calls[self.current].clone();
            assert(call.deep_view() == self.calls.deep_view()[self.current as int]);
            let args: ToolArgs = parse_args(call.arguments.as_str());
            let mut send: Vec<StreamMsg> = send;
            match approval_summary(call.name.as_str(), &args) {
                Some(summary) => {
                    self.phase = Phase::Approving;
                    push_event(&mut send, StreamMsg::ApprovalRequired { summary });
                    Step { send, action: AgentAction::AwaitDecision }
                },
                None => {
                    self.phase = Phase::Running;
                    push_event(
                        &mut send,
                        StreamMsg::ToolStart {
                            name: call.name.clone(),
                            args_preview: args.preview(),
                        },
                    );
                    Step { send, action: AgentAction::Run(call) }
                },
            }
        } else {
            self.next_round(send, cancelled)
        }
    }

    fn answer(&mut self, send: Vec<StreamMsg>, content: String, cancelled: bool) -> (r: Step)
        requires
            old(self).deep_view().round <= MAX_ROUNDS,
            old(self).deep_view().answered(),
            old(self).deep_view().current < old(self).deep_view().calls.len(),
        ensures
            (final(self).deep_view(), r.deep_view()) == answer_spec(
                old(self).deep_view(),
                send.deep_view(),
                content@,
                cancelled,
            ),
            final(self).deep_view().wf(),
    {
        let ghost agent = self.deep_view();
        proof {
            let k = self.current as int;
            assert(self.calls.deep_view().len() == self.calls@.len());
            assert(self.calls@.len() == self.calls.len());
            assert(self.calls.deep_view()[k] == self.calls@[k].deep_view());
        }
        let result: ApiMessage = ApiMessage::ToolResult {
            id: self.calls[self.current].id.clone(),
            content,
        };
        let ghost view = result.deep_view();
        self.messages.push(result);
        self.current += 1;
        proof {
            assert(self.messages.deep_view() =~= agent.messages.push(view));
            lemma_answered(agent, view);
        }
        self.next_call(send, cancelled)
    }

    /// Take in what has happened. `cancelled` says whether the user has left.
    pub fn step(&mut self, event: AgentEvent, cancelled: bool) -> (r: Step)
        requires
            old(self).deep_view().wf(),
        ensures
            (final(self).deep_view(), r.deep_view()) == step_spec(
                old(self).deep_view(),
                event.deep_view(),
                cancelled,
            ),
            final(self).deep_view().wf(),
    {
        match (self.phase, event) {
            (Phase::Asking, AgentEvent::Replied(calls)) => self.replied(calls, cancelled),
            (Phase::Asking, AgentEvent::AskFailed(e)) => {
                self.phase = Phase::Finished;
                Step { send: one_event(StreamMsg::Failed(e)), action: AgentAction::Stop }
            },
            (Phase::Approving, AgentEvent::Decided(approved)) => self.decided(approved, cancelled),
            (Phase::Running, AgentEvent::ToolSucceeded(result)) => {
                let done: StreamMsg = StreamMsg::ToolDone { result_preview: String::new() };
                assert(done.deep_view() =~= (StreamView::ToolDone {
                    result_preview: Seq::empty(),
                }));
                self.answer(one_event(done), result, cancelled)
            },
            (Phase::Running, AgentEvent::ToolErred(e)) => {
                // The error is the result, so that the model can recover.
                let mut content: String = "Error: ".to_string();
                content.append(e.as_str());
                self.answer(one_event(StreamMsg::ToolFailed { error: e }), content, cancelled)
            },
            _ => Step { send: no_events(), action: AgentAction::Ignored },
        }
    }

    fn replied(&mut self, calls: Vec<ToolCall>, cancelled: bool) -> (r: Step)
        requires
            old(self).deep_view().wf(),
            old(self).phase == Phase::Asking,
        ensures
            (final(self).deep_view(), r.deep_view()) == step_spec(
                old(self).deep_view(),
                AgentEventView::Replied(calls.deep_view()),
                cancelled,
            ),
            final(self).deep_view().wf(),
    {
        let ghost agent = self.deep_view();
        let ghost given = calls.deep_view();
        assert(given.len() == calls@.len());
        if calls.len() == 0 {
            self.phase = Phase::Finished;
            return Step { send: one_event(StreamMsg::Done), action: AgentAction::Stop };
        }
        self.messages.push(ApiMessage::AssistantToolCalls(copy_calls(&calls)));
        self.calls = calls;
        self.current = 0;
        assert(self.messages.deep_view() =~= agent.messages.push(
            ApiView::AssistantToolCalls(given),
        ));
        self.next_call(no_events(), cancelled)
    }

    fn decided(&mut self, approved: bool, cancelled: bool) -> (r: Step)
        requires
            old(self).deep_view().wf(),
            old(self).phase == Phase::Approving,
        ensures
            (final(self).deep_view(), r.deep_view()) == step_spec(
                old(self).deep_view(),
                AgentEventView::Decided(approved),
                cancelled,
            ),
            final(self).deep_view().wf(),
    {
        if !approved {
            return self.answer(
                one_event(
                    StreamMsg::ToolFailed { error: "Operation rejected by user.".to_string() },
                ),
                "Error: user rejected the operation.".to_string(),
                cancelled,
            );
        }
        assert(self.calls.deep_view().len() == self.calls@.len());
        let call: ToolCall = self.calls[self.current].clone();
        assert(call.deep_view() == self.calls.deep_view()[self.current as int]);
        let args: ToolArgs = parse_args(call.arguments.as_str());
        self.phase = Phase::Running;
        let started: StreamMsg = StreamMsg::ToolStart {
            name: call.name.clone(),
            args_preview: args.preview(),
        };
        Step { send: one_event(started), action: AgentAction::Run(call) }
    }
}

proof fn lemma_answered(agent: AgentView, result: ApiView)
    requires
        agent.answered(),
        agent.current < agent.calls.len(),
        is_result_of(result, agent.calls[agent.current as int]),
    ensures
        (AgentView {
            messages: agent.messages.push(result),
            current: agent.current + 1,
            ..agent
        }).answered(),
{
    let next = AgentView {
        messages: agent.messages.push(result),
        current: agent.current + 1,
        ..agent
    };
    assert forall|i: int| 0 <= i < next.current implies is_result_of(
        #[trigger] next.messages[next.messages.len() - next.current + i],
        next.calls[i],
    ) by {
        let k = agent.messages.len() - agent.current + i;
        assert(next.messages.len() - next.current + i == k);
        if i < agent.current {
            assert(next.messages[k] == agent.messages[k]);
            assert(is_result_of(
                agent.messages[agent.messages.len() - agent.current + i],
                agent.calls[i],
            ));
        }
    }
}

// ─── Laws ────────────────────────────────────────────────────────────────────

/// The tools that change something.
pub open spec fn is_mutating(name: Seq<char>) -> bool {
    name == "shell_bg"@ || name == "fs_write"@ || name == "fs_patch"@ || name == "fs_mkdir"@ || name
        == "fs_delete"@
}

/// The user is asked about every tool that changes something, whatever its arguments are.
pub proof fn law_mutating_tools_need_approval(
    name: Seq<char>,
    args: Seq<(Seq<char>, Option<Seq<char>>)>,
)
    requires
        is_mutating(name),
    ensures
        approval_spec(name, args) is Some,
{
    reveal_strlit("shell_exec");
    reveal_strlit("shell_bg");
    reveal_strlit("fs_write");
    reveal_strlit("fs_patch");
    reveal_strlit("fs_mkdir");
    reveal_strlit("fs_delete");
    assert("shell_exec"@.len() == 10);
    assert("shell_bg"@.len() == 8);
    assert("fs_write"@.len() == 8);
    assert("fs_patch"@.len() == 8);
    assert("fs_mkdir"@.len() == 8);
    assert("fs_delete"@.len() == 9);
}

/// No other tool than these and the shell is asked about.
pub proof fn law_reading_tools_run_freely(
    name: Seq<char>,
    args: Seq<(Seq<char>, Option<Seq<char>>)>,
)
    requires
        !is_mutating(name),
        name != "shell_exec"@,
    ensures
        approval_spec(name, args) is None,
{
}

/// No tool runs without the approval that it needs: a step that runs a call either needed none, or
/// is the user's consent to that very call.
pub proof fn law_no_run_without_approval(
    agent: AgentView,
    event: AgentEventView,
    cancelled: bool,
)
    requires
        agent.wf(),
        step_spec(agent, event, cancelled).1.action is Run,
    ensures
        ({
            let (after, step) = step_spec(agent, event, cancelled);
            let call = step.action->Run_0;
            &&& after.phase == Phase::Running
            &&& after.current < after.calls.len() && call == after.calls[after.current as int]
            &&& call_approval(call) is None || (agent.phase == Phase::Approving && event
                == AgentEventView::Decided(true) && after.current == agent.current && after.calls
                == agent.calls)
        }),
{
}

/// A refused call is passed over, and is answered: the chat shows that it failed, and the model
/// gets the refusal as the result of that call.
pub proof fn law_refused_call_is_answered(agent: AgentView, cancelled: bool)
    requires
        agent.wf(),
        agent.phase == Phase::Approving,
    ensures
        ({
            let (after, step) = step_spec(agent, AgentEventView::Decided(false), cancelled);
            &&& after.messages == agent.messages.push(
                ApiView::ToolResult {
                    id: agent.calls[agent.current as int].id,
                    content: "Error: user rejected the operation."@,
                },
            )
            &&& step.send[0] == (StreamView::ToolFailed {
                error: "Operation rejected by user."@,
            })
            &&& after.current == agent.current + 1
        }),
{
}

/// Every call that was run is answered, by its result or by its error.
pub proof fn law_finished_call_is_answered(
    agent: AgentView,
    result: Seq<char>,
    failed: bool,
    cancelled: bool,
)
    requires
        agent.wf(),
        agent.phase == Phase::Running,
    ensures
        ({
            let event = if failed {
                AgentEventView::ToolErred(result)
            } else {
                AgentEventView::ToolSucceeded(result)
            };
            let after = step_spec(agent, event, cancelled).0;
            after.messages == agent.messages.push(
                ApiView::ToolResult {
                    id: agent.calls[agent.current as int].id,
                    content: if failed {
                        "Error: "@ + result
                    } else {
                        result
                    },
                },
            )
        }),
{
}

/// When the model is asked again while the user is there, every call of the round before has got
/// its result.
pub proof fn law_all_calls_are_answered(agent: AgentView, event: AgentEventView)
    requires
        agent.wf(),
        step_spec(agent, event, false).1.action is Ask,
    ensures
        ({
            let after = step_spec(agent, event, false).0;
            after.current == after.calls.len() && after.answered()
        }),
{
    match (agent.phase, event) {
        (Phase::Approving, AgentEventView::Decided(false)) => {
            lemma_answered(
                agent,
                ApiView::ToolResult {
                    id: agent.calls[agent.current as int].id,
                    content: "Error: user rejected the operation."@,
                },
            );
        },
        (Phase::Running, AgentEventView::ToolSucceeded(result)) => {
            lemma_answered(
                agent,
                ApiView::ToolResult {
                    id: agent.calls[agent.current as int].id,
                    content: result,
                },
            );
        },
        (Phase::Running, AgentEventView::ToolErred(e)) => {
            lemma_answered(
                agent,
                ApiView::ToolResult {
                    id: agent.calls[agent.current as int].id,
                    content: "Error: "@ + e,
                },
            );
        },
        _ => {},
    }
}

/// The model is asked only a limited number of times, and each time counts.
pub proof fn law_rounds_are_bounded(agent: AgentView, event: AgentEventView, cancelled: bool)
    requires
        agent.wf(),
    ensures
        step_spec(agent, event, cancelled).0.round <= MAX_ROUNDS,
        step_spec(agent, event, cancelled).1.action is Ask ==> step_spec(
            agent,
            event,
            cancelled,
        ).0.round == agent.round + 1,
        !(step_spec(agent, event, cancelled).1.action is Ask) ==> step_spec(
            agent,
            event,
            cancelled,
        ).0.round == agent.round,
{
}

/// Once the user has left, whatever the agent waited for ends the turn, unless it is the user's
/// consent to a call: no further tool is started, and the model is not asked again.
pub proof fn law_leaving_stops_the_agent(agent: AgentView, event: AgentEventView)
    requires
        agent.wf(),
        !(step_spec(agent, event, true).1.action is Ignored),
        event != AgentEventView::Decided(true),
    ensures
        step_spec(agent, event, true).1.action is Stop,
        step_spec(agent, event, true).0.phase == Phase::Finished,
{
}

/// A turn always ends with one last word to the chat: the end, or what went wrong.
pub proof fn law_turn_ends_with_a_word(agent: AgentView, event: AgentEventView, cancelled: bool)
    requires
        agent.wf(),
    ensures
        ({
            let (after, step) = step_spec(agent, event, cancelled);
            step.action is Stop ==> after.phase == Phase::Finished && step.send.len() > 0 && (
            step.send.last() is Done || step.send.last() is Failed)
        }),
{
}

/// The text of a field is that of the first field with its name, and empty where there is none or
/// it is no text.
pub proof fn law_fields_are_found(
    args: Seq<(Seq<char>, Option<Seq<char>>)>,
    key: Seq<char>,
    k: int,
)
    ensures
        0 <= k < args.len() && args[k].0 == key && (forall|j: int|
            0 <= j < k ==> (#[trigger] args[j]).0 != key) ==> field_text(args, key) == (
        match args[k].1 {
            Some(text) => text,
            None => Seq::empty(),
        }),
        (forall|j: int| 0 <= j < args.len() ==> (#[trigger] args[j]).0 != key) ==> field_text(
            args,
            key,
        ).len() == 0,
{
    if 0 <= k < args.len() && args[k].0 == key && (forall|j: int|
        0 <= j < k ==> (#[trigger] args[j]).0 != key) {
        lemma_field_index(args, key, 0, k);
    }
    if forall|j: int| 0 <= j < args.len() ==> (#[trigger] args[j]).0 != key {
        lemma_no_field(args, key, 0);
    }
}

proof fn lemma_field_index(
    args: Seq<(Seq<char>, Option<Seq<char>>)>,
    key: Seq<char>,
    i: int,
    k: int,
)
    requires
        0 <= i <= k < args.len(),
        args[k].0 == key,
        forall|j: int| 0 <= j < k ==> (#[trigger] args[j]).0 != key,
    ensures
        field_index(args, key, i) == Some(k),
    decreases k - i,
{
    if i < k {
        assert(args[i].0 != key);
        lemma_field_index(args, key, i + 1, k);
    }
}

proof fn lemma_no_field(args: Seq<(Seq<char>, Option<Seq<char>>)>, key: Seq<char>, i: int)
    requires
        0 <= i,
        forall|j: int| 0 <= j < args.len() ==> (#[trigger] args[j]).0 != key,
    ensures
        field_index(args, key, i) is None,
    decreases args.len() - i,
{
    if i < args.len() {
        assert(args[i].0 != key);
        lemma_no_field(args, key, i + 1);
    }
}

/// The user is asked with what the tool would do: the command of a background job, or the path of
/// the file or directory, cut behind sixty characters.
pub proof fn law_questions_name_the_target(
    args: Seq<(Seq<char>, Option<Seq<char>>)>,
)
    ensures
        ({
            let cut = |text: Seq<char>| if text.len() <= 60 { text } else { text.take(60) };
            let command = cut(field_text(args, "command"@));
            let path = cut(field_text(args, "path"@));
            &&& approval_spec("shell_bg"@, args) == Some("shell_bg: "@ + command)
            &&& approval_spec("fs_write"@, args) == Some("write file: "@ + path)
            &&& approval_spec("fs_patch"@, args) == Some("patch file: "@ + path)
            &&& approval_spec("fs_mkdir"@, args) == Some("mkdir: "@ + path)
            &&& approval_spec("fs_delete"@, args) == Some("delete: "@ + path)
            &&& approval_spec("shell_exec"@, args) == shell_exec_spec(
                field_text(args, "command"@),
            )
        }),
{
    reveal_strlit("shell_exec");
    reveal_strlit("shell_bg");
    reveal_strlit("fs_write");
    reveal_strlit("fs_patch");
    reveal_strlit("fs_mkdir");
    reveal_strlit("fs_delete");
    assert("shell_exec"@.len() == 10);
    assert("shell_bg"@.len() == 8 && "shell_bg"@[0] == 's');
    assert("fs_write"@.len() == 8 && "fs_write"@[0] == 'f' && "fs_write"@[3] == 'w');
    assert("fs_patch"@.len() == 8 && "fs_patch"@[0] == 'f' && "fs_patch"@[3] == 'p');
    assert("fs_mkdir"@.len() == 8 && "fs_mkdir"@[0] == 'f' && "fs_mkdir"@[3] == 'm');
    assert("fs_delete"@.len() == 9);
}

/// A tool call is shown with its path, or with its first argument where it has no path, cut
/// behind forty characters.
pub proof fn law_calls_are_previewed(args: Seq<(Seq<char>, Option<Seq<char>>)>, k: int)
    requires
        0 <= k < args.len(),
        args[k].0 == "path"@ && (forall|j: int| 0 <= j < k ==> (#[trigger] args[j]).0 != "path"@)
            || k == 0 && (forall|j: int|
            0 <= j < args.len() ==> (#[trigger] args[j]).0 != "path"@),
    ensures
        ({
            let text = match args[k].1 {
                Some(t) => t,
                None => Seq::empty(),
            };
            preview_spec(args) == (if text.len() <= 40 {
                text
            } else {
                text.take(40)
            })
        }),
{
    if args[k].0 == "path"@ && (forall|j: int| 0 <= j < k ==> (#[trigger] args[j]).0 != "path"@) {
        lemma_field_index(args, "path"@, 0, k);
    } else {
        lemma_no_field(args, "path"@, 0);
    }
}

/// What the chat is told of a step: of a call that runs its name and what it works on, of a call
/// that waits the question, of an answer without calls that the turn is over, and of what went
/// wrong the reason.
pub proof fn law_chat_is_told(agent: AgentView, event: AgentEventView, cancelled: bool)
    requires
        agent.wf(),
    ensures
        ({
            let (after, step) = step_spec(agent, event, cancelled);
            &&& step.action matches AgentActionView::Run(call) ==> step.send.len() > 0
                && step.send.last() == (StreamView::ToolStart {
                name: call.name,
                args_preview: preview_spec(args_spec(json_fields_spec(call.arguments))),
            })
            &&& step.action is AwaitDecision ==> step.send.len() > 0 && (step.send.last() matches StreamView::ApprovalRequired {
                summary,
            } && call_approval(after.calls[after.current as int]) == Some(summary))
                && after.phase == Phase::Approving
            &&& agent.phase == Phase::Asking && event == AgentEventView::Replied(Seq::empty())
                ==> step.send == seq![StreamView::Done] && step.action is Stop
            &&& agent.phase == Phase::Asking ==> (event matches AgentEventView::AskFailed(e)
                ==> step.send == seq![StreamView::Failed(e)] && step.action is Stop)
            &&& agent.phase == Phase::Running ==> (event matches AgentEventView::ToolErred(e)
                ==> step.send[0] == (StreamView::ToolFailed { error: e }))
            &&& agent.phase == Phase::Running && event is ToolSucceeded ==> step.send[0] is ToolDone
        }),
{
    if agent.phase == Phase::Asking && event is Replied {
        let calls = event->Replied_0;
        if calls.len() == 0 {
            assert(calls =~= Seq::empty());
        }
    }
}

/// The calls of an answer are taken in their order: the first one first, and after each the one
/// behind it; when all are through, the model is asked again.
pub proof fn law_calls_in_order(agent: AgentView, event: AgentEventView)
    requires
        agent.wf(),
    ensures
        ({
            let (after, step) = step_spec(agent, event, false);
            &&& agent.phase == Phase::Asking ==> (event matches AgentEventView::Replied(calls) ==> (
            calls.len() > 0 ==> after.calls == calls && after.current == 0 && after.messages
                == agent.messages.push(ApiView::AssistantToolCalls(calls)) && (
            step.action is AwaitDecision || step.action == AgentActionView::Run(calls[0]))))
            &&& agent.phase == Phase::Running && (event is ToolSucceeded || event is ToolErred)
                || agent.phase == Phase::Approving && event == AgentEventView::Decided(false)
                ==> after.current == agent.current + 1 && after.calls == agent.calls && (
            agent.current + 1 < agent.calls.len() ==> step.action is AwaitDecision || step.action
                == AgentActionView::Run(agent.calls[agent.current as int + 1])) && (agent.current + 1
                == agent.calls.len() ==> (if agent.round < 15 {
                step.action is Ask
            } else {
                step.action is Stop
            }))
            &&& agent.phase == Phase::Approving && event == AgentEventView::Decided(true)
                ==> after.current == agent.current && step.action == AgentActionView::Run(
                agent.calls[agent.current as int],
            )
        }),
{
}

/// The model is asked fifteen times at most, and each time with a new start of its answer.
pub proof fn law_fifteen_rounds(agent: AgentView, send: Seq<StreamView>)
    ensures
        agent.round < 15 ==> ({
            let (after, step) = next_round_spec(agent, send, false);
            step.action is Ask && step.send == send && after.round == agent.round + 1
                && !after.sent_start && after.phase == Phase::Asking && after.messages
                == agent.messages
        }),
        agent.round >= 15 ==> ({
            let (after, step) = next_round_spec(agent, send, false);
            step.action is Stop && step.send == send.push(StreamView::Done)
        }),
{
}

/// Every piece of an answer reaches the chat as it came, and the first of a round announces the
/// answer.
pub proof fn law_tokens_reach_the_chat(token: Seq<char>)
    ensures
        token_events(true, token) == seq![StreamView::Token(token)],
        token_events(false, token) == seq![StreamView::AssistantStart, StreamView::Token(token)],
{
}

} // verus!
