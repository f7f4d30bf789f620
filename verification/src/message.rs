//! The turns of a conversation.

use vstd::prelude::*;

verus! {

/// Who speaks.
#[derive(Clone, Copy, PartialEq, Eq, Debug, Structural)]
pub enum Role {
    User,
    Assistant,
}

/// Context that the user attached to a message.
#[derive(Debug)]
pub struct MessageAttachment {
    pub kind: String,
    pub label: String,
    pub payload: String,
}

/// What a [`MessageAttachment`] holds.
#[verifier::ext_equal]
pub struct AttachmentView {
    pub kind: Seq<char>,
    pub label: Seq<char>,
    pub payload: Seq<char>,
}

impl DeepView for MessageAttachment {
    type V = AttachmentView;

    open spec fn deep_view(&self) -> AttachmentView {
        AttachmentView { kind: self.kind@, label: self.label@, payload: self.payload@ }
    }
}

impl Clone for MessageAttachment {
    fn clone(&self) -> (r: MessageAttachment)
        ensures
            r.deep_view() == self.deep_view(),
    {
        MessageAttachment {
            kind: self.kind.clone(),
            label: self.label.clone(),
            payload: self.payload.clone(),
        }
    }
}

impl MessageAttachment {
    pub fn new(kind: &str, label: &str, payload: String) -> (r: MessageAttachment)
        ensures
            r.deep_view() == (AttachmentView { kind: kind@, label: label@, payload: payload@ }),
    {
        MessageAttachment { kind: kind.to_string(), label: label.to_string(), payload }
    }
}

/// A copy of `attachments`.
pub fn copy_attachments(attachments: &Vec<MessageAttachment>) -> (out: Vec<MessageAttachment>)
    ensures
        out.deep_view() == attachments.deep_view(),
{
    let mut out: Vec<MessageAttachment> = Vec::new();
    let mut i: usize = 0;
    while i < attachments.len()
        invariant
            i <= attachments.len(),
            out@.len() == i,
            forall|j: int|
                0 <= j < i ==> (#[trigger] out@[j]).deep_view() == attachments@[j].deep_view(),
        decreases attachments.len() - i,
    {
        out.push(attachments[i].clone());
        i += 1;
    }
    assert(out.deep_view() =~= attachments.deep_view());
    out
}

/// One line of the conversation: a text of the user or of the assistant, or a tool call.
pub struct Message {
    pub role: Role,
    pub content: String,
    /// False while the assistant is still streaming.
    pub complete: bool,
    /// True for messages of the interface (such as the welcome text) that are not sent to the
    /// model.
    pub is_context: bool,
    /// Where it is there, this message is a tool call, not a text.
    pub tool_name: Option<String>,
    /// Short preview of the arguments of the tool.
    pub tool_args: Option<String>,
    /// True where the tool returned an error.
    pub tool_failed: bool,
    pub attachments: Vec<MessageAttachment>,
}

/// What a [`Message`] holds.
#[verifier::ext_equal]
pub struct MessageView {
    pub role: Role,
    pub content: Seq<char>,
    pub complete: bool,
    pub is_context: bool,
    pub tool_name: Option<Seq<char>>,
    pub tool_args: Option<Seq<char>>,
    pub tool_failed: bool,
    pub attachments: Seq<AttachmentView>,
}

impl MessageView {
    /// Whether this is a tool call.
    pub open spec fn is_tool(self) -> bool {
        self.tool_name is Some
    }
}

impl DeepView for Message {
    type V = MessageView;

    open spec fn deep_view(&self) -> MessageView {
        MessageView {
            role: self.role,
            content: self.content@,
            complete: self.complete,
            is_context: self.is_context,
            tool_name: self.tool_name.deep_view(),
            tool_args: self.tool_args.deep_view(),
            tool_failed: self.tool_failed,
            attachments: self.attachments.deep_view(),
        }
    }
}

/// A text of `role`.
pub open spec fn text_message(
    role: Role,
    content: Seq<char>,
    complete: bool,
    is_context: bool,
) -> MessageView {
    MessageView {
        role,
        content,
        complete,
        is_context,
        tool_name: None,
        tool_args: None,
        tool_failed: false,
        attachments: Seq::empty(),
    }
}

/// A message that the user sent.
pub open spec fn user_message(
    content: Seq<char>,
    attachments: Seq<AttachmentView>,
) -> MessageView {
    MessageView { attachments, ..text_message(Role::User, content, true, false) }
}

/// A tool call that has just started.
pub open spec fn tool_message(name: Seq<char>, args_preview: Seq<char>) -> MessageView {
    MessageView {
        tool_name: Some(name),
        tool_args: Some(args_preview),
        ..text_message(Role::Assistant, Seq::empty(), false, false)
    }
}

impl Message {
    /// A text of `role`.
    pub fn text(role: Role, content: String, complete: bool, is_context: bool) -> (r: Message)
        ensures
            r.deep_view() == text_message(role, content@, complete, is_context),
    {
        let r: Message = Message {
            role,
            content,
            complete,
            is_context,
            tool_name: None,
            tool_args: None,
            tool_failed: false,
            attachments: Vec::new(),
        };
        assert(r.attachments.deep_view() =~= Seq::empty());
        r
    }

    /// A message that the user sent.
    pub fn user_text(content: String, attachments: Vec<MessageAttachment>) -> (r: Message)
        ensures
            r.deep_view() == user_message(content@, attachments.deep_view()),
    {
        Message {
            role: Role::User,
            content,
            complete: true,
            is_context: false,
            tool_name: None,
            tool_args: None,
            tool_failed: false,
            attachments,
        }
    }

    /// A tool call that has just started.
    pub fn tool_event(name: String, args_preview: String) -> (r: Message)
        ensures
            r.deep_view() == tool_message(name@, args_preview@),
    {
        let r: Message = Message {
            role: Role::Assistant,
            content: String::new(),
            complete: false,
            is_context: false,
            tool_name: Some(name),
            tool_args: Some(args_preview),
            tool_failed: false,
            attachments: Vec::new(),
        };
        assert(r.attachments.deep_view() =~= Seq::empty());
        r
    }

    /// Whether this is a tool call.
    pub fn is_tool(&self) -> (r: bool)
        ensures
            r == self.deep_view().is_tool(),
    {
        self.tool_name.is_some()
    }
}

} // verus!
