//! What is read from the chat history: windows of a thread, what belongs to a message, and what
//! happened since.
use crate::chat_history::attachments::ChatAttachment;
use crate::chat_history::rows::{
    attachments_of, copy_attachment, copy_event, copy_live, copy_step, events_of, live_of, shown_of, steps_of, AttachmentView,
    ChatLiveEvent, ChatLiveEventView, ChatMessage, ChatMessageView, MessageView, TurnEvent, TurnEventView, TurnStep,
    TurnStepView,
};
use crate::chat_history::store::{
    attachment_ids, event_ids, live_id, message_ids, step_ids, told_since, ChatHistoryStore, HistoryView,
};
use crate::memory::queries::admitted;
use crate::order::{
    key_before, picked, picked_twice, positions, rearranged, sort_order, sorted_order, sorted_rows, sorting_is_a_permutation,
    Key,
};
use crate::table::{
    all_kept, first_row, ids_bound_rows, kept, kept_grows, kept_ids_grow, kept_in_parts, kept_rows_meet, kept_twice,
    meeting_rows_are_kept, none_kept, slot_at,
};
use crate::text::{clone_opt, same};
use vstd::prelude::*;

verus! {

// ---------------------------------------------------------------------------
// What belongs to a message
// ---------------------------------------------------------------------------

/// The step belongs to a message.
pub open spec fn step_of(message_id: i64) -> spec_fn(TurnStepView) -> bool {
    |s: TurnStepView| s.message_id == message_id
}

/// The event belongs to a message.
pub open spec fn event_of(message_id: i64) -> spec_fn(TurnEventView) -> bool {
    |e: TurnEventView| e.message_id == message_id
}

/// The file belongs to one of the messages.
pub open spec fn attached_to(message_ids: Seq<i64>) -> spec_fn(AttachmentView) -> bool {
    |a: AttachmentView| message_ids.contains(a.message_id)
}

/// The file has the id.
pub open spec fn attachment_numbered(id: i64) -> spec_fn(AttachmentView) -> bool {
    |a: AttachmentView| a.id == id
}

/// Steps are ordered by their place in the chain.
pub open spec fn step_keys(v: Seq<TurnStepView>) -> Seq<Key> {
    v.map_values(|s: TurnStepView| (s.seq as i128, s.id as i128))
}

/// Events are ordered by their place in the stream.
pub open spec fn event_keys(v: Seq<TurnEventView>) -> Seq<Key> {
    v.map_values(|e: TurnEventView| (e.seq as i128, e.id as i128))
}

/// The steps of a message, in the order of the chain.
pub open spec fn steps_listed(steps: Seq<TurnStepView>, message_id: i64) -> Seq<TurnStepView> {
    let own = kept(steps, step_of(message_id));
    sorted_rows(own, step_keys(own))
}

/// The events of a message, in the order of the stream.
pub open spec fn events_listed(events: Seq<TurnEventView>, message_id: i64) -> Seq<TurnEventView> {
    let own = kept(events, event_of(message_id));
    sorted_rows(own, event_keys(own))
}

impl ChatHistoryStore {
    fn step_positions(&self, message_id: i64) -> (r: Vec<usize>)
        ensures
            picked(self@.steps, positions(r@)) == kept(self@.steps, step_of(message_id)),
            forall|k: int| 0 <= k < r@.len() ==> #[trigger] r@[k] < self.steps@.len(),
    {
        let ghost rows = self@.steps;
        let ghost keep = step_of(message_id);
        let mut at: Vec<usize> = Vec::new();
        let mut i: usize = 0;
        assert(picked(rows, positions(at@)) =~= kept(rows.take(0), keep));
        while i < self.steps.len()
            invariant
                i <= self.steps.len(),
                rows == self@.steps,
                keep == step_of(message_id),
                forall|k: int| 0 <= k < at@.len() ==> #[trigger] at@[k] < i,
                picked(rows, positions(at@)) == kept(rows.take(i as int), keep),
            decreases self.steps.len() - i,
        {
            proof {
                kept_grows(rows, keep, i as int);
            }
            assert(rows[i as int] == self.steps@[i as int]@);
            if self.steps[i].message_id == message_id {
                let ghost before = picked(rows, positions(at@));
                at.push(i);
                assert(picked(rows, positions(at@)) =~= before.push(rows[i as int]));
            }
            i = i + 1;
        }
        assert(rows.take(i as int) =~= rows);
        at
    }

    fn steps_at(&self, at: &Vec<usize>) -> (r: Vec<TurnStep>)
        requires
            forall|k: int| 0 <= k < at@.len() ==> #[trigger] at@[k] < self.steps@.len(),
        ensures
            steps_of(r@) == picked(self@.steps, positions(at@)),
    {
        let mut r: Vec<TurnStep> = Vec::new();
        let mut j: usize = 0;
        while j < at.len()
            invariant
                j <= at.len(),
                forall|k: int| 0 <= k < at@.len() ==> #[trigger] at@[k] < self.steps@.len(),
                r@.len() == j,
                forall|x: int| 0 <= x < j ==> (#[trigger] r@[x])@ == self@.steps[at@[x] as int],
            decreases at.len() - j,
        {
            let p: usize = at[j];
            assert(self@.steps[p as int] == self.steps@[p as int]@);
            r.push(copy_step(&self.steps[p]));
            j = j + 1;
        }
        assert(steps_of(r@) =~= picked(self@.steps, positions(at@)));
        r
    }

    fn step_keys_at(&self, at: &Vec<usize>) -> (r: Vec<Key>)
        requires
            forall|k: int| 0 <= k < at@.len() ==> #[trigger] at@[k] < self.steps@.len(),
        ensures
            r@ == step_keys(picked(self@.steps, positions(at@))),
            r@.len() == at@.len(),
    {
        let ghost goal = step_keys(picked(self@.steps, positions(at@)));
        let mut r: Vec<Key> = Vec::new();
        let mut j: usize = 0;
        while j < at.len()
            invariant
                j <= at.len(),
                goal == step_keys(picked(self@.steps, positions(at@))),
                forall|k: int| 0 <= k < at@.len() ==> #[trigger] at@[k] < self.steps@.len(),
                r@.len() == j,
                forall|x: int| 0 <= x < j ==> #[trigger] r@[x] == goal[x],
            decreases at.len() - j,
        {
            let p: usize = at[j];
            assert(self@.steps[p as int] == self.steps@[p as int]@);
            let x = &self.steps[p];
            r.push((x.seq as i128, x.id as i128));
            assert(picked(self@.steps, positions(at@))[j as int] == self@.steps[p as int]);
            assert(r@[j as int] == goal[j as int]);
            j = j + 1;
        }
        assert(r@ =~= goal);
        r
    }

    /// The steps of a message, in the order of the chain.
    pub fn list_steps(&self, message_id: i64) -> (r: Vec<TurnStep>)
        ensures
            steps_of(r@) == steps_listed(self@.steps, message_id),
    {
        let at = self.step_positions(message_id);
        let keys = self.step_keys_at(&at);
        let sorted = sort_order(&keys);
        let order = rearranged(&at, &sorted);
        proof {
            picked_twice(self@.steps, positions(at@), positions(sorted@));
        }
        self.steps_at(&order)
    }

    fn step_total(&self, message_id: i64) -> (r: i64)
        requires
            self@.wf(),
        ensures
            r == kept(self@.steps, step_of(message_id)).len(),
    {
        let at = self.step_positions(message_id);
        proof {
            ids_bound_rows(step_ids(self@.steps), self@.last_step_id + 1);
            kept_rows_meet(self@.steps, step_of(message_id));
            assert(picked(self@.steps, positions(at@)).len() == at@.len());
        }
        at.len() as i64
    }

    fn event_positions(&self, message_id: i64) -> (r: Vec<usize>)
        ensures
            picked(self@.events, positions(r@)) == kept(self@.events, event_of(message_id)),
            forall|k: int| 0 <= k < r@.len() ==> #[trigger] r@[k] < self.events@.len(),
    {
        let ghost rows = self@.events;
        let ghost keep = event_of(message_id);
        let mut at: Vec<usize> = Vec::new();
        let mut i: usize = 0;
        assert(picked(rows, positions(at@)) =~= kept(rows.take(0), keep));
        while i < self.events.len()
            invariant
                i <= self.events.len(),
                rows == self@.events,
                keep == event_of(message_id),
                forall|k: int| 0 <= k < at@.len() ==> #[trigger] at@[k] < i,
                picked(rows, positions(at@)) == kept(rows.take(i as int), keep),
            decreases self.events.len() - i,
        {
            proof {
                kept_grows(rows, keep, i as int);
            }
            assert(rows[i as int] == self.events@[i as int]@);
            if self.events[i].message_id == message_id {
                let ghost before = picked(rows, positions(at@));
                at.push(i);
                assert(picked(rows, positions(at@)) =~= before.push(rows[i as int]));
            }
            i = i + 1;
        }
        assert(rows.take(i as int) =~= rows);
        at
    }

    fn events_at(&self, at: &Vec<usize>) -> (r: Vec<TurnEvent>)
        requires
            forall|k: int| 0 <= k < at@.len() ==> #[trigger] at@[k] < self.events@.len(),
        ensures
            events_of(r@) == picked(self@.events, positions(at@)),
    {
        let mut r: Vec<TurnEvent> = Vec::new();
        let mut j: usize = 0;
        while j < at.len()
            invariant
                j <= at.len(),
                forall|k: int| 0 <= k < at@.len() ==> #[trigger] at@[k] < self.events@.len(),
                r@.len() == j,
                forall|x: int| 0 <= x < j ==> (#[trigger] r@[x])@ == self@.events[at@[x] as int],
            decreases at.len() - j,
        {
            let p: usize = at[j];
            assert(self@.events[p as int] == self.events@[p as int]@);
            r.push(copy_event(&self.events[p]));
            j = j + 1;
        }
        assert(events_of(r@) =~= picked(self@.events, positions(at@)));
        r
    }

    fn event_keys_at(&self, at: &Vec<usize>) -> (r: Vec<Key>)
        requires
            forall|k: int| 0 <= k < at@.len() ==> #[trigger] at@[k] < self.events@.len(),
        ensures
            r@ == event_keys(picked(self@.events, positions(at@))),
            r@.len() == at@.len(),
    {
        let ghost goal = event_keys(picked(self@.events, positions(at@)));
        let mut r: Vec<Key> = Vec::new();
        let mut j: usize = 0;
        while j < at.len()
            invariant
                j <= at.len(),
                goal == event_keys(picked(self@.events, positions(at@))),
                forall|k: int| 0 <= k < at@.len() ==> #[trigger] at@[k] < self.events@.len(),
                r@.len() == j,
                forall|x: int| 0 <= x < j ==> #[trigger] r@[x] == goal[x],
            decreases at.len() - j,
        {
            let p: usize = at[j];
            assert(self@.events[p as int] == self.events@[p as int]@);
            let x = &self.events[p];
            r.push((x.seq as i128, x.id as i128));
            assert(picked(self@.events, positions(at@))[j as int] == self@.events[p as int]);
            assert(r@[j as int] == goal[j as int]);
            j = j + 1;
        }
        assert(r@ =~= goal);
        r
    }

    /// The events of a message, in the order of the stream.
    pub fn list_events(&self, message_id: i64) -> (r: Vec<TurnEvent>)
        ensures
            events_of(r@) == events_listed(self@.events, message_id),
    {
        let at = self.event_positions(message_id);
        let keys = self.event_keys_at(&at);
        let sorted = sort_order(&keys);
        let order = rearranged(&at, &sorted);
        proof {
            picked_twice(self@.events, positions(at@), positions(sorted@));
        }
        self.events_at(&order)
    }

    fn event_total(&self, message_id: i64) -> (r: i64)
        requires
            self@.wf(),
        ensures
            r == kept(self@.events, event_of(message_id)).len(),
    {
        let at = self.event_positions(message_id);
        proof {
            ids_bound_rows(event_ids(self@.events), self@.last_event_id + 1);
            kept_rows_meet(self@.events, event_of(message_id));
            assert(picked(self@.events, positions(at@)).len() == at@.len());
        }
        at.len() as i64
    }

    fn attachment_positions(&self, message_ids: &[i64]) -> (r: Vec<usize>)
        ensures
            picked(self@.attachments, positions(r@)) == kept(self@.attachments, attached_to(message_ids@)),
            forall|k: int| 0 <= k < r@.len() ==> #[trigger] r@[k] < self.attachments@.len(),
    {
        let ghost rows = self@.attachments;
        let ghost keep = attached_to(message_ids@);
        let mut at: Vec<usize> = Vec::new();
        let mut i: usize = 0;
        assert(picked(rows, positions(at@)) =~= kept(rows.take(0), keep));
        while i < self.attachments.len()
            invariant
                i <= self.attachments.len(),
                rows == self@.attachments,
                keep == attached_to(message_ids@),
                forall|k: int| 0 <= k < at@.len() ==> #[trigger] at@[k] < i,
                picked(rows, positions(at@)) == kept(rows.take(i as int), keep),
            decreases self.attachments.len() - i,
        {
            proof {
                kept_grows(rows, keep, i as int);
            }
            assert(rows[i as int] == self.attachments@[i as int]@);
            if holds(message_ids, self.attachments[i].message_id) {
                let ghost before = picked(rows, positions(at@));
                at.push(i);
                assert(picked(rows, positions(at@)) =~= before.push(rows[i as int]));
            }
            i = i + 1;
        }
        assert(rows.take(i as int) =~= rows);
        at
    }

    fn attachments_at(&self, at: &Vec<usize>) -> (r: Vec<ChatAttachment>)
        requires
            forall|k: int| 0 <= k < at@.len() ==> #[trigger] at@[k] < self.attachments@.len(),
        ensures
            attachments_of(r@) == picked(self@.attachments, positions(at@)),
    {
        let mut r: Vec<ChatAttachment> = Vec::new();
        let mut j: usize = 0;
        while j < at.len()
            invariant
                j <= at.len(),
                forall|k: int| 0 <= k < at@.len() ==> #[trigger] at@[k] < self.attachments@.len(),
                r@.len() == j,
                forall|x: int| 0 <= x < j ==> (#[trigger] r@[x])@ == self@.attachments[at@[x] as int],
            decreases at.len() - j,
        {
            let p: usize = at[j];
            assert(self@.attachments[p as int] == self.attachments@[p as int]@);
            r.push(copy_attachment(&self.attachments[p]));
            j = j + 1;
        }
        assert(attachments_of(r@) =~= picked(self@.attachments, positions(at@)));
        r
    }

    /// The files of the messages, in the order in which they came.
    pub fn attachments_for_messages(&self, message_ids: &[i64]) -> (r: Vec<ChatAttachment>)
        ensures
            attachments_of(r@) == kept(self@.attachments, attached_to(message_ids@)),
    {
        let at = self.attachment_positions(message_ids);
        self.attachments_at(&at)
    }

    /// The file of an id.
    pub fn attachment(&self, id: i64) -> (r: Option<ChatAttachment>)
        ensures
            match r {
                Some(a) => first_row(self@.attachments, attachment_numbered(id)) == Some(a@),
                None => first_row(self@.attachments, attachment_numbered(id)) is None,
            },
    {
        let ghost wanted = attachment_numbered(id);
        let mut i: usize = 0;
        while i < self.attachments.len()
            invariant
                i <= self.attachments.len(),
                wanted == attachment_numbered(id),
                forall|k: int| 0 <= k < i ==> !wanted(#[trigger] self@.attachments[k]),
            decreases self.attachments.len() - i,
        {
            assert(self@.attachments[i as int] == self.attachments@[i as int]@);
            if self.attachments[i].id == id {
                proof {
                    slot_at(self@.attachments, wanted, i as int);
                }
                return Some(copy_attachment(&self.attachments[i]));
            }
            i = i + 1;
        }
        proof {
            slot_at(self@.attachments, wanted, i as int);
        }
        None
    }
}

fn holds(ids: &[i64], id: i64) -> (r: bool)
    ensures
        r == ids@.contains(id),
{
    let mut i: usize = 0;
    while i < ids.len()
        invariant
            i <= ids.len(),
            forall|k: int| 0 <= k < i ==> ids@[k] != id,
        decreases ids.len() - i,
    {
        if ids[i] == id {
            assert(ids@[i as int] == id);
            return true;
        }
        i = i + 1;
    }
    false
}

// ---------------------------------------------------------------------------
// Windows of a thread
// ---------------------------------------------------------------------------

/// The message is in a thread, before another one and within a span of time, as far as these are
/// given.
pub open spec fn asked(thread_id: Seq<char>, before: Option<i64>, span: Option<(i64, i64)>) -> spec_fn(MessageView) -> bool {
    |m: MessageView|
        m.thread_id == thread_id && (before matches Some(b) ==> m.id < b) && (span matches Some(s) ==> s.0
            <= m.created_at < s.1)
}

/// A message with the number of its steps and events.
pub open spec fn shown(v: HistoryView, m: MessageView) -> ChatMessageView {
    ChatMessageView {
        id: m.id,
        thread_id: m.thread_id,
        role: m.role,
        content: m.content,
        content_html: m.content_html,
        status: m.status,
        created_at: m.created_at,
        step_count: kept(v.steps, step_of(m.id)).len() as i64,
        event_count: kept(v.events, event_of(m.id)).len() as i64,
    }
}

/// Messages with the numbers of their steps and events.
pub open spec fn all_shown(v: HistoryView, ms: Seq<MessageView>) -> Seq<ChatMessageView> {
    ms.map_values(|m: MessageView| shown(v, m))
}

/// The last rows; all of them where the number is negative.
pub open spec fn newest<T>(s: Seq<T>, limit: int) -> Seq<T> {
    s.skip(s.len() - admitted(limit, s.len()))
}

/// The first rows; all of them where the number is negative.
pub open spec fn oldest<T>(s: Seq<T>, limit: int) -> Seq<T> {
    s.take(admitted(limit, s.len()) as int)
}

/// Messages are ordered by when they were written.
pub open spec fn date_keys(ms: Seq<MessageView>) -> Seq<Key> {
    ms.map_values(|m: MessageView| (m.created_at as i128, m.id as i128))
}

/// The messages of a thread.
pub open spec fn thread_messages(v: HistoryView, thread_id: Seq<char>) -> Seq<MessageView> {
    kept(v.messages, asked(thread_id, None, None))
}

/// The messages of a thread before another one.
pub open spec fn earlier_messages(v: HistoryView, thread_id: Seq<char>, before: i64) -> Seq<MessageView> {
    kept(v.messages, asked(thread_id, Some(before), None))
}

/// The messages of a thread within a span of time, in the order in which they were written.
pub open spec fn dated_messages(v: HistoryView, thread_id: Seq<char>, start: i64, end: i64) -> Seq<MessageView> {
    let within = kept(v.messages, asked(thread_id, None, Some((start, end))));
    sorted_rows(within, date_keys(within))
}

fn size_of(limit: i64, n: usize) -> (r: usize)
    ensures
        r == admitted(limit as int, n as nat),
        r <= n,
{
    if limit < 0 || limit as u64 > n as u64 {
        n
    } else {
        limit as usize
    }
}

fn last_positions(at: &Vec<usize>, size: usize) -> (r: Vec<usize>)
    requires
        size <= at@.len(),
    ensures
        r@ == at@.skip(at@.len() - size),
{
    let mut r: Vec<usize> = Vec::new();
    let from: usize = at.len() - size;
    let mut i: usize = from;
    while i < at.len()
        invariant
            from <= i <= at.len(),
            r@ == at@.subrange(from as int, i as int),
        decreases at.len() - i,
    {
        r.push(at[i]);
        assert(at@.subrange(from as int, i + 1) =~= at@.subrange(from as int, i as int).push(at@[i as int]));
        i = i + 1;
    }
    assert(r@ =~= at@.skip(at@.len() - size));
    r
}

fn first_positions(at: &Vec<usize>, size: usize) -> (r: Vec<usize>)
    requires
        size <= at@.len(),
    ensures
        r@ == at@.take(size as int),
{
    let mut r: Vec<usize> = Vec::new();
    let mut i: usize = 0;
    while i < size
        invariant
            i <= size <= at@.len(),
            r@ == at@.take(i as int),
        decreases size - i,
    {
        r.push(at[i]);
        assert(at@.take(i + 1) =~= at@.take(i as int).push(at@[i as int]));
        i = i + 1;
    }
    r
}

impl ChatHistoryStore {
    fn message_positions(&self, thread_id: &str, before: Option<i64>, span: Option<(i64, i64)>) -> (r: Vec<usize>)
        ensures
            picked(self@.messages, positions(r@)) == kept(self@.messages, asked(thread_id@, before, span)),
            forall|k: int| 0 <= k < r@.len() ==> #[trigger] r@[k] < self.messages@.len(),
    {
        let ghost rows = self@.messages;
        let ghost keep = asked(thread_id@, before, span);
        let mut at: Vec<usize> = Vec::new();
        let mut i: usize = 0;
        assert(picked(rows, positions(at@)) =~= kept(rows.take(0), keep));
        while i < self.messages.len()
            invariant
                i <= self.messages.len(),
                rows == self@.messages,
                keep == asked(thread_id@, before, span),
                forall|k: int| 0 <= k < at@.len() ==> #[trigger] at@[k] < i,
                picked(rows, positions(at@)) == kept(rows.take(i as int), keep),
            decreases self.messages.len() - i,
        {
            proof {
                kept_grows(rows, keep, i as int);
            }
            assert(rows[i as int] == self.messages@[i as int]@);
            if self.is_asked(i, thread_id, before, span) {
                let ghost before = picked(rows, positions(at@));
                at.push(i);
                assert(picked(rows, positions(at@)) =~= before.push(rows[i as int]));
            }
            i = i + 1;
        }
        assert(rows.take(i as int) =~= rows);
        at
    }

    fn message_keys_at(&self, at: &Vec<usize>) -> (r: Vec<Key>)
        requires
            forall|k: int| 0 <= k < at@.len() ==> #[trigger] at@[k] < self.messages@.len(),
        ensures
            r@ == date_keys(picked(self@.messages, positions(at@))),
            r@.len() == at@.len(),
    {
        let ghost goal = date_keys(picked(self@.messages, positions(at@)));
        let mut r: Vec<Key> = Vec::new();
        let mut j: usize = 0;
        while j < at.len()
            invariant
                j <= at.len(),
                goal == date_keys(picked(self@.messages, positions(at@))),
                forall|k: int| 0 <= k < at@.len() ==> #[trigger] at@[k] < self.messages@.len(),
                r@.len() == j,
                forall|x: int| 0 <= x < j ==> #[trigger] r@[x] == goal[x],
            decreases at.len() - j,
        {
            let p: usize = at[j];
            assert(self@.messages[p as int] == self.messages@[p as int]@);
            let x = &self.messages[p];
            r.push((x.created_at as i128, x.id as i128));
            assert(picked(self@.messages, positions(at@))[j as int] == self@.messages[p as int]);
            assert(r@[j as int] == goal[j as int]);
            j = j + 1;
        }
        assert(r@ =~= goal);
        r
    }

    fn is_asked(&self, i: usize, thread_id: &str, before: Option<i64>, span: Option<(i64, i64)>) -> (r: bool)
        requires
            i < self.messages@.len(),
        ensures
            r == asked(thread_id@, before, span)(self.messages@[i as int]@),
    {
        let m = &self.messages[i];
        if !same(m.thread_id.as_str(), thread_id) {
            return false;
        }
        if let Some(b) = before {
            if m.id >= b {
                return false;
            }
        }
        if let Some(s) = span {
            if m.created_at < s.0 || m.created_at >= s.1 {
                return false;
            }
        }
        true
    }

    fn shown_at(&self, at: &Vec<usize>) -> (r: Vec<ChatMessage>)
        requires
            self@.wf(),
            forall|k: int| 0 <= k < at@.len() ==> #[trigger] at@[k] < self.messages@.len(),
        ensures
            shown_of(r@) == all_shown(self@, picked(self@.messages, positions(at@))),
    {
        let ghost goal = all_shown(self@, picked(self@.messages, positions(at@)));
        let mut r: Vec<ChatMessage> = Vec::new();
        let mut j: usize = 0;
        while j < at.len()
            invariant
                j <= at.len(),
                self@.wf(),
                goal == all_shown(self@, picked(self@.messages, positions(at@))),
                forall|k: int| 0 <= k < at@.len() ==> #[trigger] at@[k] < self.messages@.len(),
                r@.len() == j,
                forall|x: int| 0 <= x < j ==> (#[trigger] r@[x])@ == goal[x],
            decreases at.len() - j,
        {
            let p: usize = at[j];
            assert(self@.messages[p as int] == self.messages@[p as int]@);
            assert(picked(self@.messages, positions(at@))[j as int] == self@.messages[p as int]);
            let m = &self.messages[p];
            r.push(
                ChatMessage {
                    id: m.id,
                    thread_id: m.thread_id.clone(),
                    role: m.role.clone(),
                    content: m.content.clone(),
                    content_html: clone_opt(&m.content_html),
                    status: m.status.clone(),
                    created_at: m.created_at,
                    step_count: self.step_total(m.id),
                    event_count: self.event_total(m.id),
                },
            );
            assert(r@[j as int]@ == goal[j as int]);
            j = j + 1;
        }
        assert(shown_of(r@) =~= goal);
        r
    }

    /// The last messages of a thread, the oldest first.
    pub fn latest_messages(&self, thread_id: &str, limit: i64) -> (r: Vec<ChatMessage>)
        requires
            self@.wf(),
        ensures
            shown_of(r@) == all_shown(self@, newest(thread_messages(self@, thread_id@), limit as int)),
    {
        let at = self.message_positions(thread_id, None, None);
        assert(picked(self@.messages, positions(at@)).len() == at@.len());
        let some = last_positions(&at, size_of(limit, at.len()));
        assert(picked(self@.messages, positions(some@)) =~= newest(thread_messages(self@, thread_id@), limit as int));
        self.shown_at(&some)
    }

    /// The last messages of a thread before another one, the oldest first.
    pub fn messages_before(&self, thread_id: &str, before: i64, limit: i64) -> (r: Vec<ChatMessage>)
        requires
            self@.wf(),
        ensures
            shown_of(r@) == all_shown(self@, newest(earlier_messages(self@, thread_id@, before), limit as int)),
    {
        let at = self.message_positions(thread_id, Some(before), None);
        assert(picked(self@.messages, positions(at@)).len() == at@.len());
        let some = last_positions(&at, size_of(limit, at.len()));
        assert(picked(self@.messages, positions(some@)) =~= newest(
            earlier_messages(self@, thread_id@, before),
            limit as int,
        ));
        self.shown_at(&some)
    }

    /// The first messages of a thread within a span of time, in the order in which they were
    /// written.
    pub fn messages_for_date(&self, thread_id: &str, start: i64, end: i64, limit: i64) -> (r: Vec<ChatMessage>)
        requires
            self@.wf(),
        ensures
            shown_of(r@) == all_shown(self@, oldest(dated_messages(self@, thread_id@, start, end), limit as int)),
    {
        let at = self.message_positions(thread_id, None, Some((start, end)));
        let keys = self.message_keys_at(&at);
        let sorted = sort_order(&keys);
        let order = rearranged(&at, &sorted);
        proof {
            picked_twice(self@.messages, positions(at@), positions(sorted@));
            assert(picked(self@.messages, positions(order@)) == dated_messages(self@, thread_id@, start, end));
            assert(picked(self@.messages, positions(order@)).len() == order@.len());
        }
        let some = first_positions(&order, size_of(limit, order.len()));
        assert(picked(self@.messages, positions(some@)) =~= oldest(
            dated_messages(self@, thread_id@, start, end),
            limit as int,
        ));
        self.shown_at(&some)
    }
}

// ---------------------------------------------------------------------------
// What happened since
// ---------------------------------------------------------------------------

/// The live event is of a scope and came after another one.
pub open spec fn told_after(scope: Seq<char>, after: i64) -> spec_fn(ChatLiveEventView) -> bool {
    |e: ChatLiveEventView| e.scope == scope && e.id > after
}

/// How many live events are handed out at once: at least one, and at most a hundred.
pub open spec fn batch_size(limit: int) -> int {
    if limit < 1 {
        1
    } else if limit > 100 {
        100
    } else {
        limit
    }
}

impl ChatHistoryStore {
    fn live_positions(&self, scope: &str, after: i64) -> (r: Vec<usize>)
        ensures
            picked(self@.live_events, positions(r@)) == kept(self@.live_events, told_after(scope@, after)),
            forall|k: int| 0 <= k < r@.len() ==> #[trigger] r@[k] < self.live_events@.len(),
    {
        let ghost rows = self@.live_events;
        let ghost keep = told_after(scope@, after);
        let mut at: Vec<usize> = Vec::new();
        let mut i: usize = 0;
        assert(picked(rows, positions(at@)) =~= kept(rows.take(0), keep));
        while i < self.live_events.len()
            invariant
                i <= self.live_events.len(),
                rows == self@.live_events,
                keep == told_after(scope@, after),
                forall|k: int| 0 <= k < at@.len() ==> #[trigger] at@[k] < i,
                picked(rows, positions(at@)) == kept(rows.take(i as int), keep),
            decreases self.live_events.len() - i,
        {
            proof {
                kept_grows(rows, keep, i as int);
            }
            assert(rows[i as int] == self.live_events@[i as int]@);
            if same(self.live_events[i].scope.as_str(), scope) && self.live_events[i].id > after {
                let ghost before = picked(rows, positions(at@));
                at.push(i);
                assert(picked(rows, positions(at@)) =~= before.push(rows[i as int]));
            }
            i = i + 1;
        }
        assert(rows.take(i as int) =~= rows);
        at
    }

    fn live_at(&self, at: &Vec<usize>) -> (r: Vec<ChatLiveEvent>)
        requires
            forall|k: int| 0 <= k < at@.len() ==> #[trigger] at@[k] < self.live_events@.len(),
        ensures
            live_of(r@) == picked(self@.live_events, positions(at@)),
    {
        let mut r: Vec<ChatLiveEvent> = Vec::new();
        let mut j: usize = 0;
        while j < at.len()
            invariant
                j <= at.len(),
                forall|k: int| 0 <= k < at@.len() ==> #[trigger] at@[k] < self.live_events@.len(),
                r@.len() == j,
                forall|x: int| 0 <= x < j ==> (#[trigger] r@[x])@ == self@.live_events[at@[x] as int],
            decreases at.len() - j,
        {
            let p: usize = at[j];
            assert(self@.live_events[p as int] == self.live_events@[p as int]@);
            r.push(copy_live(&self.live_events[p]));
            j = j + 1;
        }
        assert(live_of(r@) =~= picked(self@.live_events, positions(at@)));
        r
    }

    /// The first live events of a scope after another one.
    pub fn live_events_after(&self, scope: &str, after: i64, limit: i64) -> (r: Vec<ChatLiveEvent>)
        ensures
            live_of(r@) == oldest(kept(self@.live_events, told_after(scope@, after)), batch_size(limit as int)),
    {
        let at = self.live_positions(scope, after);
        let size: i64 = if limit < 1 {
            1
        } else if limit > 100 {
            100
        } else {
            limit
        };
        assert(picked(self@.live_events, positions(at@)).len() == at@.len());
        let some = first_positions(&at, size_of(size, at.len()));
        assert(picked(self@.live_events, positions(some@)) =~= oldest(
            kept(self@.live_events, told_after(scope@, after)),
            batch_size(limit as int),
        ));
        self.live_at(&some)
    }
}

// ---------------------------------------------------------------------------
// Laws
// ---------------------------------------------------------------------------

spec fn message_id_of() -> spec_fn(MessageView) -> i64 {
    |m: MessageView| m.id
}

/// The message came before another one.
spec fn numbered_below(b: i64) -> spec_fn(MessageView) -> bool {
    |m: MessageView| m.id < b
}

/// The event came after another one.
spec fn numbered_above(a: i64) -> spec_fn(ChatLiveEventView) -> bool {
    |e: ChatLiveEventView| e.id > a
}

/// Going back page by page shows every message of a thread once: what is before the first message
/// of a page, and that page, are all messages that the page was taken from.
pub proof fn pages_meet(v: HistoryView, thread_id: Seq<char>, before: Option<i64>, limit: int)
    requires
        v.wf(),
        newest(kept(v.messages, asked(thread_id, before, None)), limit).len() > 0,
    ensures
        ({
            let all = match before {
                Some(b) => earlier_messages(v, thread_id, b),
                None => thread_messages(v, thread_id),
            };
            let page = newest(all, limit);
            earlier_messages(v, thread_id, page[0].id) + page == all
        }),
{
    let all = kept(v.messages, asked(thread_id, before, None));
    let page = newest(all, limit);
    let k = all.len() - page.len();
    let b = page[0].id;
    assert(message_ids(v.messages) =~= v.messages.map_values(message_id_of()));
    kept_ids_grow(v.messages, asked(thread_id, before, None), message_id_of(), v.last_message_id + 1);
    let ids = all.map_values(message_id_of());
    kept_rows_meet(v.messages, asked(thread_id, before, None));
    assert(page =~= all.skip(k));
    assert(all[k] == page[0]);
    assert(asked(thread_id, before, None)(all[k]));
    kept_twice(
        v.messages,
        asked(thread_id, before, None),
        numbered_below(b),
        asked(thread_id, Some(b), None),
    );
    let first = all.take(k);
    assert(all =~= first + page);
    assert(ids[k] == b);
    kept_in_parts(first, page, numbered_below(b));
    assert forall|j: int| 0 <= j < first.len() implies numbered_below(b)(#[trigger] first[j]) by {
        assert(ids[j] == first[j].id);
        assert(ids[j] < ids[k]);
    }
    all_kept(first, numbered_below(b));
    assert forall|j: int| 0 <= j < page.len() implies !numbered_below(b)(#[trigger] page[j]) by {
        assert(ids[k + j] == page[j].id);
        if j > 0 {
            assert(ids[k] < ids[k + j]);
        }
    }
    none_kept(page, numbered_below(b));
    assert(first + Seq::<MessageView>::empty() =~= first);
}

/// Whoever asks again after the last live event that they were given misses none and gets none
/// twice.
pub proof fn polls_meet(v: HistoryView, scope: Seq<char>, after: i64, limit: int)
    requires
        v.wf(),
        oldest(kept(v.live_events, told_after(scope, after)), limit).len() > 0,
    ensures
        ({
            let given = oldest(kept(v.live_events, told_after(scope, after)), limit);
            given + kept(v.live_events, told_after(scope, given.last().id)) == kept(
                v.live_events,
                told_after(scope, after),
            )
        }),
{
    let all = kept(v.live_events, told_after(scope, after));
    let given = oldest(all, limit);
    let k = given.len() as int;
    let a = given.last().id;
    kept_ids_grow(v.live_events, told_after(scope, after), live_id(), v.last_live_id + 1);
    kept_rows_meet(v.live_events, told_after(scope, after));
    assert(told_after(scope, after)(all[k - 1]));
    let ids = all.map_values(live_id());
    kept_twice(v.live_events, told_after(scope, after), numbered_above(a), told_after(scope, a));
    let rest = all.skip(k);
    assert(all =~= given + rest);
    assert(ids[k - 1] == a);
    kept_in_parts(given, rest, numbered_above(a));
    assert forall|j: int| 0 <= j < given.len() implies !numbered_above(a)(#[trigger] given[j]) by {
        assert(ids[j] == given[j].id);
        if j < k - 1 {
            assert(ids[j] < ids[k - 1]);
        }
    }
    none_kept(given, numbered_above(a));
    assert forall|j: int| 0 <= j < rest.len() implies numbered_above(a)(#[trigger] rest[j]) by {
        assert(ids[k + j] == rest[j].id);
        assert(ids[k - 1] < ids[k + j]);
    }
    all_kept(rest, numbered_above(a));
    assert(Seq::<ChatLiveEventView>::empty() + rest =~= rest);
}

/// A new message is the last of its thread and of no other.
pub proof fn new_messages_come_last(v: HistoryView, m: MessageView, thread_id: Seq<char>)
    ensures
        thread_messages((HistoryView { messages: v.messages.push(m), ..v }), thread_id) == (if m.thread_id == thread_id {
            thread_messages(v, thread_id).push(m)
        } else {
            thread_messages(v, thread_id)
        }),
{
    assert(v.messages.push(m).drop_last() =~= v.messages);
}

/// A file is read back under the id that it was given.
pub proof fn attachments_are_read_back(v: HistoryView, a: AttachmentView)
    requires
        v.wf(),
        a.id == v.last_attachment_id + 1,
    ensures
        first_row(v.attachments.push(a), attachment_numbered(a.id)) == Some(a),
        kept(v.attachments.push(a), attached_to(seq![a.message_id])) == kept(
            v.attachments,
            attached_to(seq![a.message_id]),
        ).push(a),
{
    let t = v.attachments.push(a);
    let ids = attachment_ids(v.attachments);
    assert forall|k: int| 0 <= k < v.attachments.len() implies !attachment_numbered(a.id)(#[trigger] t[k]) by {
        assert(ids[k] == t[k].id);
        assert(ids[k] < v.last_attachment_id + 1);
    }
    slot_at(t, attachment_numbered(a.id), v.attachments.len() as int);
    assert(t.drop_last() =~= v.attachments);
    assert(seq![a.message_id].contains(a.message_id)) by {
        assert(seq![a.message_id][0] == a.message_id);
    }
}

/// The steps of a message are listed each once, and none before one that is earlier in the chain.
pub proof fn steps_are_listed_in_order(steps: Seq<TurnStepView>, message_id: i64)
    ensures
        steps_listed(steps, message_id).len() == kept(steps, step_of(message_id)).len(),
        forall|x: TurnStepView|
            steps.contains(x) && x.message_id == message_id <==> #[trigger] steps_listed(steps, message_id).contains(x),
        forall|i: int, j: int|
            0 <= i < j < steps_listed(steps, message_id).len() ==> (#[trigger] steps_listed(steps, message_id)[i]).seq
                <= (#[trigger] steps_listed(steps, message_id)[j]).seq,
{
    let own = kept(steps, step_of(message_id));
    let keys = step_keys(own);
    let order = sorted_order(keys, keys.len() as int);
    let r = steps_listed(steps, message_id);
    sorting_is_a_permutation(keys, keys.len() as int);
    kept_rows_meet(steps, step_of(message_id));
    assert forall|x: TurnStepView| steps.contains(x) && x.message_id == message_id <==> #[trigger] r.contains(x) by {
        if steps.contains(x) && x.message_id == message_id {
            meeting_rows_are_kept(steps, step_of(message_id), x);
            let k = own.index_of(x);
            assert(order.contains(k));
            let p = order.index_of(k);
            assert(r[p] == x);
        }
        if r.contains(x) {
            let p = r.index_of(x);
            assert(r[p] == own[order[p]]);
            assert(order.contains(order[p]));
            assert(step_of(message_id)(own[order[p]]));
        }
    }
    assert forall|i: int, j: int| 0 <= i < j < r.len() implies (#[trigger] r[i]).seq <= (#[trigger] r[j]).seq by {
        assert(order.contains(order[i]) && order.contains(order[j]));
        assert(!key_before(keys[order[j]], keys[order[i]]));
        assert(keys[order[j]] == (r[j].seq as i128, r[j].id as i128));
        assert(keys[order[i]] == (r[i].seq as i128, r[i].id as i128));
    }
}

/// Pruning drops the live events from before a moment and no other.
pub proof fn pruning_drops_only_old_events(events: Seq<ChatLiveEventView>, moment: i64, e: ChatLiveEventView)
    ensures
        kept(events, told_since(moment)).contains(e) <==> events.contains(e) && e.created_at >= moment,
{
    kept_rows_meet(events, told_since(moment));
    let r = kept(events, told_since(moment));
    if events.contains(e) && e.created_at >= moment {
        meeting_rows_are_kept(events, told_since(moment), e);
    }
    if r.contains(e) {
        let k = r.index_of(e);
        assert(told_since(moment)(r[k]));
    }
}

} // verus!
