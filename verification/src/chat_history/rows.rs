//! The rows of the chat history.
use crate::chat_history::attachments::{ChatAttachment, NewChatAttachment};
use crate::text::{clone_opt, opt_text};
use vstd::prelude::*;

verus! {

/// A thread: the messages of a scope.
#[derive(Debug, Clone, PartialEq, Eq)]
pub struct ThreadRow {
    pub id: String,
    pub scope: String,
    pub title: String,
    pub created_at: i64,
    pub updated_at: i64,
}

/// The mathematical form of `ThreadRow`.
pub struct ThreadView {
    pub id: Seq<char>,
    pub scope: Seq<char>,
    pub title: Seq<char>,
    pub created_at: i64,
    pub updated_at: i64,
}

impl View for ThreadRow {
    type V = ThreadView;

    open spec fn view(&self) -> ThreadView {
        ThreadView {
            id: self.id@,
            scope: self.scope@,
            title: self.title@,
            created_at: self.created_at,
            updated_at: self.updated_at,
        }
    }
}

/// The mathematical forms of many.
pub open spec fn threads_of(v: Seq<ThreadRow>) -> Seq<ThreadView> {
    v.map_values(|x: ThreadRow| x@)
}

/// A message as it is stored.
#[derive(Debug, Clone, PartialEq, Eq)]
pub struct MessageRow {
    pub id: i64,
    pub thread_id: String,
    pub role: String,
    pub content: String,
    pub content_html: Option<String>,
    pub status: String,
    pub created_at: i64,
}

/// The mathematical form of `MessageRow`.
pub struct MessageView {
    pub id: i64,
    pub thread_id: Seq<char>,
    pub role: Seq<char>,
    pub content: Seq<char>,
    pub content_html: Option<Seq<char>>,
    pub status: Seq<char>,
    pub created_at: i64,
}

impl View for MessageRow {
    type V = MessageView;

    open spec fn view(&self) -> MessageView {
        MessageView {
            id: self.id,
            thread_id: self.thread_id@,
            role: self.role@,
            content: self.content@,
            content_html: opt_text(self.content_html),
            status: self.status@,
            created_at: self.created_at,
        }
    }
}

/// The mathematical forms of many.
pub open spec fn messages_of(v: Seq<MessageRow>) -> Seq<MessageView> {
    v.map_values(|x: MessageRow| x@)
}

/// A message as it is shown.
#[derive(Debug, Clone, PartialEq, Eq)]
pub struct ChatMessage {
    pub id: i64,
    pub thread_id: String,
    pub role: String,
    pub content: String,
    pub content_html: Option<String>,
    pub status: String,
    pub created_at: i64,
    /// How many steps of helpers led to the message.
    pub step_count: i64,
    /// How many events of the stream led to the message.
    pub event_count: i64,
}

/// The mathematical form of `ChatMessage`.
pub struct ChatMessageView {
    pub id: i64,
    pub thread_id: Seq<char>,
    pub role: Seq<char>,
    pub content: Seq<char>,
    pub content_html: Option<Seq<char>>,
    pub status: Seq<char>,
    pub created_at: i64,
    pub step_count: i64,
    pub event_count: i64,
}

impl View for ChatMessage {
    type V = ChatMessageView;

    open spec fn view(&self) -> ChatMessageView {
        ChatMessageView {
            id: self.id,
            thread_id: self.thread_id@,
            role: self.role@,
            content: self.content@,
            content_html: opt_text(self.content_html),
            status: self.status@,
            created_at: self.created_at,
            step_count: self.step_count,
            event_count: self.event_count,
        }
    }
}

/// The mathematical forms of many.
pub open spec fn shown_of(v: Seq<ChatMessage>) -> Seq<ChatMessageView> {
    v.map_values(|x: ChatMessage| x@)
}

/// A scope that can be chosen.
#[derive(Debug, Clone, PartialEq, Eq)]
pub struct ChatScope {
    pub scope: String,
    pub label: String,
    pub message_count: i64,
    pub updated_at: i64,
}

/// The mathematical form of `ChatScope`.
pub struct ChatScopeView {
    pub scope: Seq<char>,
    pub label: Seq<char>,
    pub message_count: i64,
    pub updated_at: i64,
}

impl View for ChatScope {
    type V = ChatScopeView;

    open spec fn view(&self) -> ChatScopeView {
        ChatScopeView {
            scope: self.scope@,
            label: self.label@,
            message_count: self.message_count,
            updated_at: self.updated_at,
        }
    }
}

/// The mathematical forms of many.
pub open spec fn scopes_of(v: Seq<ChatScope>) -> Seq<ChatScopeView> {
    v.map_values(|x: ChatScope| x@)
}

/// A copy.
pub fn copy_scope(x: &ChatScope) -> (r: ChatScope)
    ensures
        r@ == x@,
{
    ChatScope {
        scope: x.scope.clone(),
        label: x.label.clone(),
        message_count: x.message_count,
        updated_at: x.updated_at,
    }
}

/// What a helper gave in a turn. It belongs to the final answer and stays out of the messages.
#[derive(Debug, Clone, PartialEq, Eq)]
pub struct TurnStep {
    pub id: i64,
    pub message_id: i64,
    pub seq: i64,
    pub role: String,
    pub content: String,
    pub content_html: Option<String>,
    pub created_at: i64,
}

/// The mathematical form of `TurnStep`.
pub struct TurnStepView {
    pub id: i64,
    pub message_id: i64,
    pub seq: i64,
    pub role: Seq<char>,
    pub content: Seq<char>,
    pub content_html: Option<Seq<char>>,
    pub created_at: i64,
}

impl View for TurnStep {
    type V = TurnStepView;

    open spec fn view(&self) -> TurnStepView {
        TurnStepView {
            id: self.id,
            message_id: self.message_id,
            seq: self.seq,
            role: self.role@,
            content: self.content@,
            content_html: opt_text(self.content_html),
            created_at: self.created_at,
        }
    }
}

/// The mathematical forms of many.
pub open spec fn steps_of(v: Seq<TurnStep>) -> Seq<TurnStepView> {
    v.map_values(|x: TurnStep| x@)
}

/// A copy.
pub fn copy_step(x: &TurnStep) -> (r: TurnStep)
    ensures
        r@ == x@,
{
    TurnStep {
        id: x.id,
        message_id: x.message_id,
        seq: x.seq,
        role: x.role.clone(),
        content: x.content.clone(),
        content_html: clone_opt(&x.content_html),
        created_at: x.created_at,
    }
}

/// What the stream of a turn told.
#[derive(Debug, Clone, PartialEq, Eq)]
pub struct TurnEvent {
    pub id: i64,
    pub message_id: i64,
    pub seq: i64,
    pub kind: String,
    pub label: Option<String>,
    pub content: String,
    pub created_at: i64,
}

/// The mathematical form of `TurnEvent`.
pub struct TurnEventView {
    pub id: i64,
    pub message_id: i64,
    pub seq: i64,
    pub kind: Seq<char>,
    pub label: Option<Seq<char>>,
    pub content: Seq<char>,
    pub created_at: i64,
}

impl View for TurnEvent {
    type V = TurnEventView;

    open spec fn view(&self) -> TurnEventView {
        TurnEventView {
            id: self.id,
            message_id: self.message_id,
            seq: self.seq,
            kind: self.kind@,
            label: opt_text(self.label),
            content: self.content@,
            created_at: self.created_at,
        }
    }
}

/// The mathematical forms of many.
pub open spec fn events_of(v: Seq<TurnEvent>) -> Seq<TurnEventView> {
    v.map_values(|x: TurnEvent| x@)
}

/// A copy.
pub fn copy_event(x: &TurnEvent) -> (r: TurnEvent)
    ensures
        r@ == x@,
{
    TurnEvent {
        id: x.id,
        message_id: x.message_id,
        seq: x.seq,
        kind: x.kind.clone(),
        label: clone_opt(&x.label),
        content: x.content.clone(),
        created_at: x.created_at,
    }
}

/// What a running turn tells those who watch its scope.
#[derive(Debug, Clone, PartialEq, Eq)]
pub struct ChatLiveEvent {
    pub id: i64,
    pub scope: String,
    pub kind: String,
    pub label: Option<String>,
    pub content: String,
    pub message_id: Option<i64>,
    pub created_at: i64,
}

/// The mathematical form of `ChatLiveEvent`.
pub struct ChatLiveEventView {
    pub id: i64,
    pub scope: Seq<char>,
    pub kind: Seq<char>,
    pub label: Option<Seq<char>>,
    pub content: Seq<char>,
    pub message_id: Option<i64>,
    pub created_at: i64,
}

impl View for ChatLiveEvent {
    type V = ChatLiveEventView;

    open spec fn view(&self) -> ChatLiveEventView {
        ChatLiveEventView {
            id: self.id,
            scope: self.scope@,
            kind: self.kind@,
            label: opt_text(self.label),
            content: self.content@,
            message_id: self.message_id,
            created_at: self.created_at,
        }
    }
}

/// The mathematical forms of many.
pub open spec fn live_of(v: Seq<ChatLiveEvent>) -> Seq<ChatLiveEventView> {
    v.map_values(|x: ChatLiveEvent| x@)
}

/// A copy.
pub fn copy_live(x: &ChatLiveEvent) -> (r: ChatLiveEvent)
    ensures
        r@ == x@,
{
    ChatLiveEvent {
        id: x.id,
        scope: x.scope.clone(),
        kind: x.kind.clone(),
        label: clone_opt(&x.label),
        content: x.content.clone(),
        message_id: x.message_id,
        created_at: x.created_at,
    }
}

/// The mathematical form of `ChatAttachment`.
pub struct AttachmentView {
    pub id: i64,
    pub message_id: i64,
    pub scope: Seq<char>,
    pub source: Seq<char>,
    pub original_name: Seq<char>,
    pub stored_name: Seq<char>,
    pub relative_path: Seq<char>,
    pub mime_type: Option<Seq<char>>,
    pub size_bytes: i64,
    pub sha256: Option<Seq<char>>,
    pub telegram_file_id: Option<Seq<char>>,
    pub created_at: i64,
}

impl View for ChatAttachment {
    type V = AttachmentView;

    open spec fn view(&self) -> AttachmentView {
        AttachmentView {
            id: self.id,
            message_id: self.message_id,
            scope: self.scope@,
            source: self.source@,
            original_name: self.original_name@,
            stored_name: self.stored_name@,
            relative_path: self.relative_path@,
            mime_type: opt_text(self.mime_type),
            size_bytes: self.size_bytes,
            sha256: opt_text(self.sha256),
            telegram_file_id: opt_text(self.telegram_file_id),
            created_at: self.created_at,
        }
    }
}

/// The mathematical forms of many.
pub open spec fn attachments_of(v: Seq<ChatAttachment>) -> Seq<AttachmentView> {
    v.map_values(|x: ChatAttachment| x@)
}

/// A copy.
pub fn copy_attachment(x: &ChatAttachment) -> (r: ChatAttachment)
    ensures
        r@ == x@,
{
    ChatAttachment {
        id: x.id,
        message_id: x.message_id,
        scope: x.scope.clone(),
        source: x.source.clone(),
        original_name: x.original_name.clone(),
        stored_name: x.stored_name.clone(),
        relative_path: x.relative_path.clone(),
        mime_type: clone_opt(&x.mime_type),
        size_bytes: x.size_bytes,
        sha256: clone_opt(&x.sha256),
        telegram_file_id: clone_opt(&x.telegram_file_id),
        created_at: x.created_at,
    }
}

/// The file of a message under an id.
pub open spec fn attachment_under(id: i64, a: NewChatAttachment) -> AttachmentView {
    AttachmentView {
        id,
        message_id: a.message_id,
        scope: a.scope@,
        source: a.source@,
        original_name: a.original_name@,
        stored_name: a.stored_name@,
        relative_path: a.relative_path@,
        mime_type: opt_text(a.mime_type),
        size_bytes: a.size_bytes,
        sha256: opt_text(a.sha256),
        telegram_file_id: opt_text(a.telegram_file_id),
        created_at: a.created_at,
    }
}

/// The file of a message under an id.
pub fn numbered_attachment(id: i64, a: &NewChatAttachment) -> (r: ChatAttachment)
    ensures
        r@ == attachment_under(id, *a),
{
    ChatAttachment {
        id,
        message_id: a.message_id,
        scope: a.scope.clone(),
        source: a.source.clone(),
        original_name: a.original_name.clone(),
        stored_name: a.stored_name.clone(),
        relative_path: a.relative_path.clone(),
        mime_type: clone_opt(&a.mime_type),
        size_bytes: a.size_bytes,
        sha256: clone_opt(&a.sha256),
        telegram_file_id: clone_opt(&a.telegram_file_id),
        created_at: a.created_at,
    }
}

} // verus!
