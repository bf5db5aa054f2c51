//! The tables of the chat history, and what is written to them.
//!
//! Every message belongs to a thread, and every file, step and event to a message.
use crate::chat_history::attachments::{ChatAttachment, NewChatAttachment};
use crate::chat_history::rows::{
    attachment_under, attachments_of, events_of, live_of, messages_of, numbered_attachment, steps_of, threads_of,
    AttachmentView, ChatLiveEvent, ChatLiveEventView, MessageRow, MessageView, ThreadRow, ThreadView, TurnEvent,
    TurnEventView, TurnStep, TurnStepView,
};
use crate::table::{
    first_row, first_row_stays, ids_grow, ids_grow_further, kept, kept_grows, kept_ids_grow, slot, slot_at, slot_is_first,
    slots_alike,
};
use crate::text::{opt_str_view, owned, same};
use vstd::prelude::*;

verus! {

/// Why nothing was written.
#[derive(Debug, Clone, Copy, PartialEq, Eq, Structural)]
pub enum HistoryError {
    /// No thread has the id.
    UnknownThread,
    /// No message has the id.
    UnknownMessage,
    /// No id is left.
    Full,
}

/// The text of an error.
pub open spec fn history_message(e: HistoryError) -> Seq<char> {
    match e {
        HistoryError::UnknownThread => "chat history: unknown thread"@,
        HistoryError::UnknownMessage => "chat history: unknown message"@,
        HistoryError::Full => "chat history: no id is left"@,
    }
}

impl HistoryError {
    /// The text of the error.
    pub fn message(self) -> (r: &'static str)
        ensures
            r@ == history_message(self),
    {
        match self {
            HistoryError::UnknownThread => "chat history: unknown thread",
            HistoryError::UnknownMessage => "chat history: unknown message",
            HistoryError::Full => "chat history: no id is left",
        }
    }
}

/// The tables of the chat history, with the last id that each has given.
#[derive(Debug, Clone, PartialEq, Eq)]
pub struct ChatHistoryStore {
    pub threads: Vec<ThreadRow>,
    pub messages: Vec<MessageRow>,
    pub attachments: Vec<ChatAttachment>,
    pub steps: Vec<TurnStep>,
    pub events: Vec<TurnEvent>,
    pub live_events: Vec<ChatLiveEvent>,
    pub last_message_id: i64,
    pub last_attachment_id: i64,
    pub last_step_id: i64,
    pub last_event_id: i64,
    pub last_live_id: i64,
}

/// The mathematical form of the tables.
pub struct HistoryView {
    pub threads: Seq<ThreadView>,
    pub messages: Seq<MessageView>,
    pub attachments: Seq<AttachmentView>,
    pub steps: Seq<TurnStepView>,
    pub events: Seq<TurnEventView>,
    pub live_events: Seq<ChatLiveEventView>,
    pub last_message_id: i64,
    pub last_attachment_id: i64,
    pub last_step_id: i64,
    pub last_event_id: i64,
    pub last_live_id: i64,
}

impl View for ChatHistoryStore {
    type V = HistoryView;

    open spec fn view(&self) -> HistoryView {
        HistoryView {
            threads: threads_of(self.threads@),
            messages: messages_of(self.messages@),
            attachments: attachments_of(self.attachments@),
            steps: steps_of(self.steps@),
            events: events_of(self.events@),
            live_events: live_of(self.live_events@),
            last_message_id: self.last_message_id,
            last_attachment_id: self.last_attachment_id,
            last_step_id: self.last_step_id,
            last_event_id: self.last_event_id,
            last_live_id: self.last_live_id,
        }
    }
}

// ---------------------------------------------------------------------------
// What every operation keeps
// ---------------------------------------------------------------------------

/// The thread has the id.
pub open spec fn thread_called(id: Seq<char>) -> spec_fn(ThreadView) -> bool {
    |t: ThreadView| t.id == id
}

/// The message has the id.
pub open spec fn message_numbered(id: i64) -> spec_fn(MessageView) -> bool {
    |m: MessageView| m.id == id
}

/// The thread of an id.
pub open spec fn thread_in(threads: Seq<ThreadView>, id: Seq<char>) -> Option<ThreadView> {
    first_row(threads, thread_called(id))
}

/// The message of an id.
pub open spec fn message_in(messages: Seq<MessageView>, id: i64) -> Option<MessageView> {
    first_row(messages, message_numbered(id))
}

pub open spec fn message_ids(v: Seq<MessageView>) -> Seq<i64> {
    v.map_values(|m: MessageView| m.id)
}

pub open spec fn attachment_ids(v: Seq<AttachmentView>) -> Seq<i64> {
    v.map_values(|a: AttachmentView| a.id)
}

pub open spec fn step_ids(v: Seq<TurnStepView>) -> Seq<i64> {
    v.map_values(|s: TurnStepView| s.id)
}

pub open spec fn event_ids(v: Seq<TurnEventView>) -> Seq<i64> {
    v.map_values(|e: TurnEventView| e.id)
}

/// The id of a live event.
pub open spec fn live_id() -> spec_fn(ChatLiveEventView) -> i64 {
    |e: ChatLiveEventView| e.id
}

/// No id is that of two threads.
pub open spec fn threads_differ(threads: Seq<ThreadView>) -> bool {
    forall|i: int, j: int| 0 <= i < j < threads.len() ==> (#[trigger] threads[i]).id != (#[trigger] threads[j]).id
}

impl HistoryView {
    /// What every operation keeps: ids are given once and in order, and nothing refers to what is
    /// not there.
    pub open spec fn wf(self) -> bool {
        &&& threads_differ(self.threads)
        &&& ids_grow(message_ids(self.messages), self.last_message_id + 1)
        &&& ids_grow(attachment_ids(self.attachments), self.last_attachment_id + 1)
        &&& ids_grow(step_ids(self.steps), self.last_step_id + 1)
        &&& ids_grow(event_ids(self.events), self.last_event_id + 1)
        &&& ids_grow(self.live_events.map_values(live_id()), self.last_live_id + 1)
        &&& forall|i: int|
            0 <= i < self.messages.len() ==> thread_in(self.threads, (#[trigger] self.messages[i]).thread_id) is Some
        &&& forall|i: int|
            0 <= i < self.attachments.len() ==> message_in(self.messages, (#[trigger] self.attachments[i]).message_id) is Some
        &&& forall|i: int|
            0 <= i < self.steps.len() ==> message_in(self.messages, (#[trigger] self.steps[i]).message_id) is Some
        &&& forall|i: int|
            0 <= i < self.events.len() ==> message_in(self.messages, (#[trigger] self.events[i]).message_id) is Some
    }
}

/// The threads, one of them touched at a moment.
pub open spec fn touched(threads: Seq<ThreadView>, id: Seq<char>, at: i64) -> Seq<ThreadView> {
    let i = slot(threads, thread_called(id));
    if i < threads.len() {
        threads.update(i, ThreadView { updated_at: at, ..threads[i] })
    } else {
        threads
    }
}

/// Touching a thread keeps every thread where it was.
proof fn touching_keeps_threads(threads: Seq<ThreadView>, id: Seq<char>, at: i64, other: Seq<char>)
    ensures
        thread_in(touched(threads, id, at), other) is Some == thread_in(threads, other) is Some,
        threads_differ(threads) ==> threads_differ(touched(threads, id, at)),
{
    let t = touched(threads, id, at);
    slot_is_first(threads, thread_called(id));
    slots_alike(threads, t, thread_called(other));
    if threads_differ(threads) {
        assert forall|i: int, j: int| 0 <= i < j < t.len() implies (#[trigger] t[i]).id != (#[trigger] t[j]).id by {
            assert(threads[i].id != threads[j].id);
        }
    }
}

/// The id of the thread of a scope.
pub open spec fn thread_id_of(scope: Seq<char>) -> Seq<char> {
    "scope:"@ + scope
}

/// The threads once the thread of a scope was asked for.
pub open spec fn with_thread(threads: Seq<ThreadView>, scope: Seq<char>, now: i64) -> Seq<ThreadView> {
    let id = thread_id_of(scope);
    if thread_in(threads, id) is Some {
        touched(threads, id, now)
    } else {
        threads.push(
            ThreadView { id, scope, title: "Default"@, created_at: now, updated_at: now },
        )
    }
}

/// Asking for the thread of a scope loses no thread.
proof fn asking_keeps_threads(threads: Seq<ThreadView>, scope: Seq<char>, now: i64, other: Seq<char>)
    ensures
        thread_in(threads, other) is Some ==> thread_in(with_thread(threads, scope, now), other) is Some,
        threads_differ(threads) ==> threads_differ(with_thread(threads, scope, now)),
{
    let id = thread_id_of(scope);
    let t = with_thread(threads, scope, now);
    if thread_in(threads, id) is Some {
        touching_keeps_threads(threads, id, now, other);
    } else {
        slot_is_first(threads, thread_called(id));
        if thread_in(threads, other) is Some {
            first_row_stays(threads, thread_called(other), t.last());
        }
        if threads_differ(threads) {
            assert forall|i: int, j: int| 0 <= i < j < t.len() implies (#[trigger] t[i]).id != (#[trigger] t[j]).id by {
                if j < threads.len() {
                    assert(threads[i].id != threads[j].id);
                } else {
                    assert(!thread_called(id)(threads[i]));
                }
            }
        }
    }
}

/// The thread of a scope is there once it was asked for, it is always the same, and no other scope
/// has it.
pub proof fn scopes_have_their_own_threads(threads: Seq<ThreadView>, scope: Seq<char>, other: Seq<char>, now: i64)
    ensures
        thread_in(with_thread(threads, scope, now), thread_id_of(scope)) is Some,
        thread_id_of(scope) == thread_id_of(other) ==> scope == other,
        other != scope ==> thread_in(with_thread(threads, scope, now), thread_id_of(other)) == thread_in(
            threads,
            thread_id_of(other),
        ),
{
    let id = thread_id_of(scope);
    let t = with_thread(threads, scope, now);
    assert(scope =~= id.skip("scope:"@.len() as int));
    assert(other =~= thread_id_of(other).skip("scope:"@.len() as int));
    slot_is_first(threads, thread_called(id));
    if thread_in(threads, id) is Some {
        touching_keeps_threads(threads, id, now, id);
    } else {
        slot_at(t, thread_called(id), threads.len() as int);
    }
    if other != scope {
        let o = thread_called(thread_id_of(other));
        let i = slot(threads, o);
        slot_is_first(threads, o);
        if thread_in(threads, id) is Some {
            slots_alike(threads, t, o);
        } else if i < threads.len() {
            first_row_stays(threads, o, t.last());
        } else {
            slot_at(t, o, t.len() as int);
        }
    }
}

impl ChatHistoryStore {
    /// An empty history.
    pub fn new() -> (r: ChatHistoryStore)
        ensures
            r@.threads.len() == 0,
            r@.messages.len() == 0,
            r@.attachments.len() == 0,
            r@.steps.len() == 0,
            r@.events.len() == 0,
            r@.live_events.len() == 0,
            r@.last_message_id == 0,
            r@.last_attachment_id == 0,
            r@.last_step_id == 0,
            r@.last_event_id == 0,
            r@.last_live_id == 0,
            r@.wf(),
    {
        ChatHistoryStore {
            threads: Vec::new(),
            messages: Vec::new(),
            attachments: Vec::new(),
            steps: Vec::new(),
            events: Vec::new(),
            live_events: Vec::new(),
            last_message_id: 0,
            last_attachment_id: 0,
            last_step_id: 0,
            last_event_id: 0,
            last_live_id: 0,
        }
    }

    fn thread_position(&self, id: &str) -> (r: usize)
        ensures
            r == slot(self@.threads, thread_called(id@)),
            r <= self.threads@.len(),
    {
        let ghost wanted = thread_called(id@);
        let mut i: usize = 0;
        while i < self.threads.len()
            invariant
                i <= self.threads.len(),
                wanted == thread_called(id@),
                forall|k: int| 0 <= k < i ==> !wanted(#[trigger] self@.threads[k]),
            decreases self.threads.len() - i,
        {
            assert(self@.threads[i as int] == self.threads@[i as int]@);
            if same(self.threads[i].id.as_str(), id) {
                proof {
                    slot_at(self@.threads, wanted, i as int);
                }
                return i;
            }
            i = i + 1;
        }
        proof {
            slot_at(self@.threads, wanted, i as int);
        }
        i
    }

    fn has_message(&self, id: i64) -> (r: bool)
        ensures
            r == message_in(self@.messages, id) is Some,
    {
        let ghost wanted = message_numbered(id);
        let mut i: usize = 0;
        while i < self.messages.len()
            invariant
                i <= self.messages.len(),
                wanted == message_numbered(id),
                forall|k: int| 0 <= k < i ==> !wanted(#[trigger] self@.messages[k]),
            decreases self.messages.len() - i,
        {
            assert(self@.messages[i as int] == self.messages@[i as int]@);
            if self.messages[i].id == id {
                proof {
                    slot_at(self@.messages, wanted, i as int);
                }
                return true;
            }
            i = i + 1;
        }
        proof {
            slot_at(self@.messages, wanted, i as int);
        }
        false
    }

    fn touch(&mut self, id: &str, at: i64)
        ensures
            final(self)@ == (HistoryView { threads: touched(old(self)@.threads, id@, at), ..old(self)@ }),
    {
        let i: usize = self.thread_position(id);
        if i < self.threads.len() {
            let ghost before = self@.threads;
            assert(before[i as int] == self.threads@[i as int]@);
            let t = &self.threads[i];
            let row = ThreadRow {
                id: t.id.clone(),
                scope: t.scope.clone(),
                title: t.title.clone(),
                created_at: t.created_at,
                updated_at: at,
            };
            let ghost w = row@;
            self.threads.set(i, row);
            assert(self@.threads =~= before.update(i as int, w));
        }
    }

    /// The thread of a scope; it is made where there is none.
    pub fn default_thread(&mut self, scope: &str, now: i64) -> (r: String)
        requires
            old(self)@.wf(),
        ensures
            r@ == thread_id_of(scope@),
            final(self)@ == (HistoryView { threads: with_thread(old(self)@.threads, scope@, now), ..old(self)@ }),
            final(self)@.wf(),
    {
        let mut id = String::from_str("scope:");
        id.append(scope);
        let ghost before = self@.threads;
        let ghost messages = self@.messages;
        proof {
            asking_keeps_threads(before, scope@, now, scope@);
            assert forall|i: int| 0 <= i < messages.len() implies thread_in(
                with_thread(before, scope@, now),
                (#[trigger] messages[i]).thread_id,
            ) is Some by {
                asking_keeps_threads(before, scope@, now, messages[i].thread_id);
            }
        }
        let i: usize = self.thread_position(id.as_str());
        if i < self.threads.len() {
            self.touch(id.as_str(), now);
        } else {
            let row = ThreadRow {
                id: id.clone(),
                scope: scope.to_owned(),
                title: "Default".to_owned(),
                created_at: now,
                updated_at: now,
            };
            let ghost w = row@;
            self.threads.push(row);
            assert(self@.threads =~= before.push(w));
        }
        id
    }

    /// Adds a message to a thread, and gives its id.
    pub fn insert_message(
        &mut self,
        thread_id: &str,
        role: &str,
        content: &str,
        content_html: Option<&str>,
        status: &str,
        created_at: i64,
    ) -> (r: Result<i64, HistoryError>)
        requires
            old(self)@.wf(),
        ensures
            final(self)@.wf(),
            match r {
                Err(e) => final(self)@ == old(self)@ && (if old(self)@.last_message_id == i64::MAX {
                    e == HistoryError::Full
                } else {
                    e == HistoryError::UnknownThread && thread_in(old(self)@.threads, thread_id@) is None
                }),
                Ok(id) => id == old(self)@.last_message_id + 1 && thread_in(old(self)@.threads, thread_id@) is Some
                    && final(self)@ == (HistoryView {
                    threads: touched(old(self)@.threads, thread_id@, created_at),
                    messages: old(self)@.messages.push(
                        MessageView {
                            id,
                            thread_id: thread_id@,
                            role: role@,
                            content: content@,
                            content_html: opt_str_view(content_html),
                            status: status@,
                            created_at,
                        },
                    ),
                    last_message_id: id,
                    ..old(self)@
                }),
            },
    {
        if self.last_message_id == i64::MAX {
            return Err(HistoryError::Full);
        }
        let i: usize = self.thread_position(thread_id);
        if i >= self.threads.len() {
            return Err(HistoryError::UnknownThread);
        }
        let ghost v = self@;
        let id: i64 = self.last_message_id + 1;
        let row = MessageRow {
            id,
            thread_id: thread_id.to_owned(),
            role: role.to_owned(),
            content: content.to_owned(),
            content_html: owned(content_html),
            status: status.to_owned(),
            created_at,
        };
        let ghost w = row@;
        self.messages.push(row);
        assert(self@.messages =~= v.messages.push(w));
        self.last_message_id = id;
        self.touch(thread_id, created_at);
        proof {
            assert(message_ids(self@.messages) =~= message_ids(v.messages).push(id));
            ids_grow_further(message_ids(v.messages), id);
            assert forall|k: int| 0 <= k < self@.messages.len() implies thread_in(
                self@.threads,
                (#[trigger] self@.messages[k]).thread_id,
            ) is Some by {
                touching_keeps_threads(v.threads, thread_id@, created_at, self@.messages[k].thread_id);
                if k < v.messages.len() {
                    assert(self@.messages[k] == v.messages[k]);
                }
            }
            touching_keeps_threads(v.threads, thread_id@, created_at, thread_id@);
            assert forall|k: int| 0 <= k < v.attachments.len() implies message_in(
                self@.messages,
                (#[trigger] v.attachments[k]).message_id,
            ) is Some by {
                first_row_stays(v.messages, message_numbered(v.attachments[k].message_id), w);
            }
            assert forall|k: int| 0 <= k < v.steps.len() implies message_in(
                self@.messages,
                (#[trigger] v.steps[k]).message_id,
            ) is Some by {
                first_row_stays(v.messages, message_numbered(v.steps[k].message_id), w);
            }
            assert forall|k: int| 0 <= k < v.events.len() implies message_in(
                self@.messages,
                (#[trigger] v.events[k]).message_id,
            ) is Some by {
                first_row_stays(v.messages, message_numbered(v.events[k].message_id), w);
            }
        }
        Ok(id)
    }

    /// Adds a file to a message, and gives its id.
    pub fn insert_attachment(&mut self, a: &NewChatAttachment) -> (r: Result<i64, HistoryError>)
        requires
            old(self)@.wf(),
        ensures
            final(self)@.wf(),
            match r {
                Err(e) => final(self)@ == old(self)@ && (if old(self)@.last_attachment_id == i64::MAX {
                    e == HistoryError::Full
                } else {
                    e == HistoryError::UnknownMessage && message_in(old(self)@.messages, a.message_id) is None
                }),
                Ok(id) => id == old(self)@.last_attachment_id + 1 && message_in(old(self)@.messages, a.message_id) is Some
                    && final(self)@ == (HistoryView {
                    attachments: old(self)@.attachments.push(attachment_under(id, *a)),
                    last_attachment_id: id,
                    ..old(self)@
                }),
            },
    {
        if self.last_attachment_id == i64::MAX {
            return Err(HistoryError::Full);
        }
        if !self.has_message(a.message_id) {
            return Err(HistoryError::UnknownMessage);
        }
        let ghost v = self@;
        let id: i64 = self.last_attachment_id + 1;
        let row = numbered_attachment(id, a);
        let ghost w = row@;
        self.attachments.push(row);
        assert(self@.attachments =~= v.attachments.push(w));
        self.last_attachment_id = id;
        proof {
            assert(attachment_ids(self@.attachments) =~= attachment_ids(v.attachments).push(id));
            ids_grow_further(attachment_ids(v.attachments), id);
            assert forall|k: int| 0 <= k < self@.attachments.len() implies message_in(
                v.messages,
                (#[trigger] self@.attachments[k]).message_id,
            ) is Some by {
                if k < v.attachments.len() {
                    assert(self@.attachments[k] == v.attachments[k]);
                }
            }
        }
        Ok(id)
    }

    /// Adds what a helper gave to the final answer of its turn, and gives the step's id.
    pub fn insert_step(
        &mut self,
        message_id: i64,
        seq: i64,
        role: &str,
        content: &str,
        content_html: Option<&str>,
        created_at: i64,
    ) -> (r: Result<i64, HistoryError>)
        requires
            old(self)@.wf(),
        ensures
            final(self)@.wf(),
            match r {
                Err(e) => final(self)@ == old(self)@ && (if old(self)@.last_step_id == i64::MAX {
                    e == HistoryError::Full
                } else {
                    e == HistoryError::UnknownMessage && message_in(old(self)@.messages, message_id) is None
                }),
                Ok(id) => id == old(self)@.last_step_id + 1 && message_in(old(self)@.messages, message_id) is Some
                    && final(self)@ == (HistoryView {
                    steps: old(self)@.steps.push(
                        TurnStepView {
                            id,
                            message_id,
                            seq,
                            role: role@,
                            content: content@,
                            content_html: opt_str_view(content_html),
                            created_at,
                        },
                    ),
                    last_step_id: id,
                    ..old(self)@
                }),
            },
    {
        if self.last_step_id == i64::MAX {
            return Err(HistoryError::Full);
        }
        if !self.has_message(message_id) {
            return Err(HistoryError::UnknownMessage);
        }
        let ghost v = self@;
        let id: i64 = self.last_step_id + 1;
        let row = TurnStep {
            id,
            message_id,
            seq,
            role: role.to_owned(),
            content: content.to_owned(),
            content_html: owned(content_html),
            created_at,
        };
        let ghost w = row@;
        self.steps.push(row);
        assert(self@.steps =~= v.steps.push(w));
        self.last_step_id = id;
        proof {
            assert(step_ids(self@.steps) =~= step_ids(v.steps).push(id));
            ids_grow_further(step_ids(v.steps), id);
            assert forall|k: int| 0 <= k < self@.steps.len() implies message_in(
                v.messages,
                (#[trigger] self@.steps[k]).message_id,
            ) is Some by {
                if k < v.steps.len() {
                    assert(self@.steps[k] == v.steps[k]);
                }
            }
        }
        Ok(id)
    }

    /// Adds what the stream of a turn told to its final answer, and gives the event's id.
    pub fn insert_event(
        &mut self,
        message_id: i64,
        seq: i64,
        kind: &str,
        label: Option<&str>,
        content: &str,
        created_at: i64,
    ) -> (r: Result<i64, HistoryError>)
        requires
            old(self)@.wf(),
        ensures
            final(self)@.wf(),
            match r {
                Err(e) => final(self)@ == old(self)@ && (if old(self)@.last_event_id == i64::MAX {
                    e == HistoryError::Full
                } else {
                    e == HistoryError::UnknownMessage && message_in(old(self)@.messages, message_id) is None
                }),
                Ok(id) => id == old(self)@.last_event_id + 1 && message_in(old(self)@.messages, message_id) is Some
                    && final(self)@ == (HistoryView {
                    events: old(self)@.events.push(
                        TurnEventView {
                            id,
                            message_id,
                            seq,
                            kind: kind@,
                            label: opt_str_view(label),
                            content: content@,
                            created_at,
                        },
                    ),
                    last_event_id: id,
                    ..old(self)@
                }),
            },
    {
        if self.last_event_id == i64::MAX {
            return Err(HistoryError::Full);
        }
        if !self.has_message(message_id) {
            return Err(HistoryError::UnknownMessage);
        }
        let ghost v = self@;
        let id: i64 = self.last_event_id + 1;
        let row = TurnEvent {
            id,
            message_id,
            seq,
            kind: kind.to_owned(),
            label: owned(label),
            content: content.to_owned(),
            created_at,
        };
        let ghost w = row@;
        self.events.push(row);
        assert(self@.events =~= v.events.push(w));
        self.last_event_id = id;
        proof {
            assert(event_ids(self@.events) =~= event_ids(v.events).push(id));
            ids_grow_further(event_ids(v.events), id);
            assert forall|k: int| 0 <= k < self@.events.len() implies message_in(
                v.messages,
                (#[trigger] self@.events[k]).message_id,
            ) is Some by {
                if k < v.events.len() {
                    assert(self@.events[k] == v.events[k]);
                }
            }
        }
        Ok(id)
    }

    /// Adds what a running turn tells those who watch its scope, and gives the event's id.
    pub fn insert_live_event(
        &mut self,
        scope: &str,
        kind: &str,
        label: Option<&str>,
        content: &str,
        message_id: Option<i64>,
        created_at: i64,
    ) -> (r: Result<i64, HistoryError>)
        requires
            old(self)@.wf(),
        ensures
            final(self)@.wf(),
            match r {
                Err(e) => final(self)@ == old(self)@ && e == HistoryError::Full && old(self)@.last_live_id == i64::MAX,
                Ok(id) => id == old(self)@.last_live_id + 1 && final(self)@ == (HistoryView {
                    live_events: old(self)@.live_events.push(
                        ChatLiveEventView {
                            id,
                            scope: scope@,
                            kind: kind@,
                            label: opt_str_view(label),
                            content: content@,
                            message_id,
                            created_at,
                        },
                    ),
                    last_live_id: id,
                    ..old(self)@
                }),
            },
    {
        if self.last_live_id == i64::MAX {
            return Err(HistoryError::Full);
        }
        let ghost v = self@;
        let id: i64 = self.last_live_id + 1;
        let row = ChatLiveEvent {
            id,
            scope: scope.to_owned(),
            kind: kind.to_owned(),
            label: owned(label),
            content: content.to_owned(),
            message_id,
            created_at,
        };
        let ghost w = row@;
        self.live_events.push(row);
        assert(self@.live_events =~= v.live_events.push(w));
        self.last_live_id = id;
        proof {
            assert(self@.live_events.map_values(live_id()) =~= v.live_events.map_values(live_id()).push(id));
            ids_grow_further(v.live_events.map_values(live_id()), id);
        }
        Ok(id)
    }

    /// Drops the live events from before a moment, and gives their number.
    pub fn prune_live_events_before(&mut self, created_before: i64) -> (r: u64)
        requires
            old(self)@.wf(),
        ensures
            final(self)@.wf(),
            final(self)@ == (HistoryView {
                live_events: kept(old(self)@.live_events, told_since(created_before)),
                ..old(self)@
            }),
            r == old(self)@.live_events.len() - final(self)@.live_events.len(),
    {
        let ghost v = self@;
        let ghost keep = told_since(created_before);
        proof {
            kept_ids_grow(v.live_events, keep, live_id(), v.last_live_id + 1);
        }
        let n: usize = self.live_events.len();
        let mut rest: Vec<ChatLiveEvent> = Vec::new();
        let mut dropped: u64 = 0;
        let mut i: usize = 0;
        assert(live_of(rest@) =~= kept(v.live_events.take(0), keep));
        while i < n
            invariant
                i <= n,
                n == self.live_events@.len(),
                *self == *old(self),
                v == self@,
                keep == told_since(created_before),
                live_of(rest@) == kept(v.live_events.take(i as int), keep),
                dropped + rest@.len() == i,
            decreases n - i,
        {
            proof {
                kept_grows(v.live_events, keep, i as int);
            }
            assert(v.live_events[i as int] == self.live_events@[i as int]@);
            let e = &self.live_events[i];
            if e.created_at < created_before {
                dropped = dropped + 1;
            } else {
                let ghost b = live_of(rest@);
                rest.push(crate::chat_history::rows::copy_live(e));
                assert(live_of(rest@) =~= b.push(v.live_events[i as int]));
            }
            i = i + 1;
        }
        assert(v.live_events.take(i as int) =~= v.live_events);
        assert(live_of(rest@).len() == rest@.len());
        self.live_events = rest;
        dropped
    }
}

/// The event was told at a moment or later.
pub open spec fn told_since(moment: i64) -> spec_fn(ChatLiveEventView) -> bool {
    |e: ChatLiveEventView| e.created_at >= moment
}

} // verus!
