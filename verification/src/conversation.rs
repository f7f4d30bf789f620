//! Conversations as they are kept between sessions.

use crate::message::{
    copy_attachments, text_message, user_message, AttachmentView, Message, MessageAttachment,
    MessageView, Role,
};
use crate::text::str_eq;
use vstd::prelude::*;

verus! {

/// A message as it is kept.
pub struct PersistedMessage {
    pub role: String,
    pub content: String,
    pub attachments: Vec<MessageAttachment>,
}

/// What a [`PersistedMessage`] holds.
#[verifier::ext_equal]
pub struct PersistedView {
    pub role: Seq<char>,
    pub content: Seq<char>,
    pub attachments: Seq<AttachmentView>,
}

impl DeepView for PersistedMessage {
    type V = PersistedView;

    open spec fn deep_view(&self) -> PersistedView {
        PersistedView {
            role: self.role@,
            content: self.content@,
            attachments: self.attachments.deep_view(),
        }
    }
}

/// An entry of the index of kept conversations.
pub struct ConversationMeta {
    pub id: String,
    pub summary: String,
    /// Seconds since the Unix epoch.
    pub updated_at: i64,
    pub message_count: usize,
}

/// What a [`ConversationMeta`] holds.
#[verifier::ext_equal]
pub struct MetaView {
    pub id: Seq<char>,
    pub summary: Seq<char>,
    pub updated_at: i64,
    pub message_count: usize,
}

impl DeepView for ConversationMeta {
    type V = MetaView;

    open spec fn deep_view(&self) -> MetaView {
        MetaView {
            id: self.id@,
            summary: self.summary@,
            updated_at: self.updated_at,
            message_count: self.message_count,
        }
    }
}

impl Clone for ConversationMeta {
    fn clone(&self) -> (r: ConversationMeta)
        ensures
            r.deep_view() == self.deep_view(),
    {
        ConversationMeta {
            id: self.id.clone(),
            summary: self.summary.clone(),
            updated_at: self.updated_at,
            message_count: self.message_count,
        }
    }
}

// ─── Saving ──────────────────────────────────────────────────────────────────

/// Whether a message is kept: it is a finished text of the conversation itself.
pub open spec fn is_kept(message: MessageView) -> bool {
    !message.is_context && !message.is_tool() && message.complete
}

/// How a role is written down.
pub open spec fn role_name(role: Role) -> Seq<char> {
    match role {
        Role::User => "user"@,
        Role::Assistant => "assistant"@,
    }
}

/// A message as it is kept.
pub open spec fn persisted_message(message: MessageView) -> PersistedView {
    PersistedView {
        role: role_name(message.role),
        content: message.content,
        attachments: message.attachments,
    }
}

/// What is kept of a conversation.
pub open spec fn persisted_spec(messages: Seq<MessageView>) -> Seq<PersistedView>
    decreases messages.len(),
{
    if messages.len() == 0 {
        Seq::empty()
    } else if is_kept(messages.last()) {
        persisted_spec(messages.drop_last()).push(persisted_message(messages.last()))
    } else {
        persisted_spec(messages.drop_last())
    }
}

/// Collect the messages that are kept: no messages of the interface, no tool calls, and no text
/// that is still being written.
pub fn persisted_messages(messages: &Vec<Message>) -> (out: Vec<PersistedMessage>)
    ensures
        out.deep_view() == persisted_spec(messages.deep_view()),
{
    let ghost all = messages.deep_view();
    let mut out: Vec<PersistedMessage> = Vec::new();
    let mut i: usize = 0;
    assert(out.deep_view() =~= Seq::empty());
    while i < messages.len()
        invariant
            i <= messages.len(),
            all == messages.deep_view(),
            out.deep_view() == persisted_spec(all.take(i as int)),
        decreases messages.len() - i,
    {
        let message: &Message = &messages[i];
        proof {
            assert(all[i as int] == message.deep_view());
            assert(all.take(i + 1).drop_last() =~= all.take(i as int));
        }
        if !message.is_context && !message.is_tool() && message.complete {
            let ghost before = out.deep_view();
            let role: &str = match message.role {
                Role::User => "user",
                Role::Assistant => "assistant",
            };
            let kept: PersistedMessage = PersistedMessage {
                role: role.to_string(),
                content: message.content.clone(),
                attachments: copy_attachments(&message.attachments),
            };
            let ghost view = kept.deep_view();
            out.push(kept);
            proof {
                assert(view == persisted_message(all[i as int]));
                assert(out.deep_view() =~= before.push(view));
            }
        }
        i += 1;
    }
    assert(all.take(all.len() as int) =~= all);
    out
}

// ─── Loading ─────────────────────────────────────────────────────────────────

/// The message that a kept one stands for. Whoever is not the user is the assistant.
pub open spec fn restored_message(kept: PersistedView) -> MessageView {
    if kept.role == "user"@ {
        user_message(kept.content, kept.attachments)
    } else {
        text_message(Role::Assistant, kept.content, true, false)
    }
}

/// The messages that kept ones stand for.
pub open spec fn restored_messages(history: Seq<PersistedView>) -> Seq<MessageView> {
    Seq::new(history.len(), |i: int| restored_message(history[i]))
}

/// An empty line of the interface behind what was said before.
pub open spec fn separator() -> MessageView {
    text_message(Role::Assistant, Seq::empty(), true, true)
}

/// A conversation as it is shown after loading: a separator keeps what follows apart from it.
pub open spec fn restored_spec(history: Seq<PersistedView>) -> Seq<MessageView> {
    if history.len() == 0 {
        Seq::empty()
    } else {
        restored_messages(history).push(separator())
    }
}

/// The messages of a conversation that was kept.
pub fn restore_messages(history: &Vec<PersistedMessage>) -> (out: Vec<Message>)
    ensures
        out.deep_view() == restored_spec(history.deep_view()),
{
    let ghost all = history.deep_view();
    let mut out: Vec<Message> = Vec::new();
    let mut i: usize = 0;
    while i < history.len()
        invariant
            i <= history.len(),
            all == history.deep_view(),
            out@.len() == i,
            forall|j: int|
                0 <= j < i ==> (#[trigger] out@[j]).deep_view() == restored_message(all[j]),
        decreases history.len() - i,
    {
        let kept: &PersistedMessage = &history[i];
        assert(all[i as int] == kept.deep_view());
        if str_eq(kept.role.as_str(), "user") {
            out.push(Message::user_text(kept.content.clone(), copy_attachments(&kept.attachments)));
        } else {
            out.push(Message::text(Role::Assistant, kept.content.clone(), true, false));
        }
        i += 1;
    }
    assert(out.deep_view() =~= restored_messages(all));
    if out.len() > 0 {
        let ghost before = out.deep_view();
        let blank: Message = Message::text(Role::Assistant, String::new(), true, true);
        let ghost view = blank.deep_view();
        out.push(blank);
        proof {
            assert(view == separator());
            assert(out.deep_view() =~= before.push(view));
        }
    }
    out
}

// ─── Laws ────────────────────────────────────────────────────────────────────

proof fn lemma_role_names()
    ensures
        role_name(Role::User) != role_name(Role::Assistant),
{
    reveal_strlit("user");
    reveal_strlit("assistant");
    assert("user"@.len() != "assistant"@.len());
}

proof fn lemma_persisted_restored(history: Seq<PersistedView>)
    requires
        forall|i: int|
            0 <= i < history.len() ==> is_well_kept(#[trigger] history[i]),
    ensures
        persisted_spec(restored_messages(history)) == history,
    decreases history.len(),
{
    if history.len() == 0 {
        assert(history =~= Seq::empty());
    } else {
        lemma_role_names();
        let front = history.drop_last();
        assert forall|i: int| 0 <= i < front.len() implies is_well_kept(#[trigger] front[i]) by {
            assert(front[i] == history[i]);
        }
        lemma_persisted_restored(front);
        assert(restored_messages(history).drop_last() =~= restored_messages(front));
        assert(is_well_kept(history[history.len() - 1]));
        assert(persisted_message(restored_message(history.last())) =~= history.last());
        assert(front.push(history.last()) =~= history);
    }
}

/// A kept message as saving writes it: its role is one of the two, and only the user attaches
/// something.
pub open spec fn is_well_kept(kept: PersistedView) -> bool {
    kept.role == role_name(Role::User) || (kept.role == role_name(Role::Assistant)
        && kept.attachments.len() == 0)
}

/// What is loaded is saved again as it was.
pub proof fn law_load_save(history: Seq<PersistedView>)
    requires
        forall|i: int| 0 <= i < history.len() ==> is_well_kept(#[trigger] history[i]),
    ensures
        persisted_spec(restored_spec(history)) == history,
{
    lemma_persisted_restored(history);
    if history.len() > 0 {
        let loaded = restored_messages(history);
        assert(loaded.push(separator()).drop_last() =~= loaded);
    } else {
        assert(history =~= Seq::empty());
    }
}

/// Only a message of the user has attachments.
pub open spec fn only_user_attaches(message: MessageView) -> bool {
    message.role == Role::User || message.attachments.len() == 0
}

/// What is saved of a conversation is loaded again: the finished texts, in order, with their
/// roles, contents and attachments.
pub proof fn law_save_load(messages: Seq<MessageView>)
    requires
        forall|i: int| 0 <= i < messages.len() ==> only_user_attaches(#[trigger] messages[i]),
    ensures
        persisted_spec(restored_spec(persisted_spec(messages))) == persisted_spec(messages),
        forall|i: int|
            0 <= i < persisted_spec(messages).len() ==> persisted_message(
                #[trigger] restored_spec(persisted_spec(messages))[i],
            ) == persisted_spec(messages)[i],
{
    let history = persisted_spec(messages);
    lemma_kept_is_well_kept(messages);
    law_load_save(history);
    lemma_role_names();
    assert forall|i: int| 0 <= i < history.len() implies persisted_message(
        #[trigger] restored_spec(history)[i],
    ) == history[i] by {
        assert(is_well_kept(history[i]));
        assert(persisted_message(restored_message(history[i])) =~= history[i]);
    }
}

proof fn lemma_kept_is_well_kept(messages: Seq<MessageView>)
    requires
        forall|i: int| 0 <= i < messages.len() ==> only_user_attaches(#[trigger] messages[i]),
    ensures
        forall|i: int|
            0 <= i < persisted_spec(messages).len() ==> is_well_kept(
                #[trigger] persisted_spec(messages)[i],
            ),
    decreases messages.len(),
{
    if messages.len() > 0 {
        let front = messages.drop_last();
        assert forall|i: int| 0 <= i < front.len() implies only_user_attaches(
            #[trigger] front[i],
        ) by {
            assert(front[i] == messages[i]);
        }
        lemma_kept_is_well_kept(front);
        assert(only_user_attaches(messages[messages.len() - 1]));
        let kept = persisted_spec(messages);
        assert forall|i: int| 0 <= i < kept.len() implies is_well_kept(#[trigger] kept[i]) by {
            if i < persisted_spec(front).len() {
                assert(kept[i] == persisted_spec(front)[i]);
            } else {
                assert(kept[i] == persisted_message(messages.last()));
            }
        }
    }
}

/// Messages of the interface, tool calls and unfinished texts leave no trace in what is kept.
pub proof fn law_other_messages_are_not_kept(messages: Seq<MessageView>, other: MessageView)
    requires
        !is_kept(other),
    ensures
        persisted_spec(messages.push(other)) == persisted_spec(messages),
{
    assert(messages.push(other).drop_last() =~= messages);
}

/// What one more message adds to what is kept: a complete text of the conversation its role, its
/// content and its attachments, anything else nothing.
pub proof fn law_next_kept_message(messages: Seq<MessageView>, m: MessageView)
    ensures
        persisted_spec(Seq::empty()).len() == 0,
        m.is_context || m.tool_name is Some || !m.complete ==> persisted_spec(messages.push(m))
            == persisted_spec(messages),
        !m.is_context && m.tool_name is None && m.complete ==> persisted_spec(messages.push(m))
            == persisted_spec(messages).push(
            PersistedView {
                role: match m.role {
                    Role::User => "user"@,
                    Role::Assistant => "assistant"@,
                },
                content: m.content,
                attachments: m.attachments,
            },
        ),
{
    assert(messages.push(m).drop_last() =~= messages);
}

/// What was kept comes back as it was said: every message in its place, as a complete text of who
/// said it, with what was attached to it; an empty line of the interface follows.
pub proof fn law_restored_messages(history: Seq<PersistedView>, i: int)
    ensures
        history.len() == 0 ==> restored_spec(history).len() == 0,
        history.len() > 0 ==> restored_spec(history).len() == history.len() + 1,
        0 <= i < history.len() ==> ({
            let m = restored_spec(history)[i];
            &&& m.content == history[i].content
            &&& m.role == (if history[i].role == "user"@ {
                Role::User
            } else {
                Role::Assistant
            })
            &&& m.complete && !m.is_context && m.tool_name is None && !m.tool_failed
            &&& history[i].role == "user"@ ==> m.attachments == history[i].attachments
            &&& history[i].role != "user"@ ==> m.attachments.len() == 0
        }),
        history.len() > 0 ==> ({
            let m = restored_spec(history).last();
            m.is_context && m.content.len() == 0 && m.complete && m.role == Role::Assistant
                && m.tool_name is None
        }),
{
}

} // verus!
