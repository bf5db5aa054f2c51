//! Storing, changing and removing memories.
use crate::memory::error::MemoryError;
use crate::memory::model::{MemoryItem, MemoryKind, RememberInput};
use crate::memory::queries::{any_of, met_rows, unmet_rows, Condition, ConditionView, FilterView, RowFilter};
use crate::memory::scope::{parsed_scope, scope_text, Scope};
use crate::memory::store::{
    ids_grow, keys_differ, rows_of, Conversation, ConversationView, MemoryRow, MemoryRowView,
    RecallTelemetryInput, Store, StoreView,
};
use crate::order::Real;
use crate::text::{blank, clone_opt, is_blank, opt_str_view, opt_text, owned, same, trimmed};
use vstd::prelude::*;

verus! {

// ---------------------------------------------------------------------------
// One memory
// ---------------------------------------------------------------------------

/// A memory as it is stored first.
pub open spec fn new_row(
    id: i64,
    session_id: Option<Seq<char>>,
    scope: Seq<char>,
    kind: MemoryKind,
    text: Seq<char>,
    importance: Real,
    now: i64,
    key: Option<Seq<char>>,
) -> MemoryRowView {
    MemoryRowView {
        id,
        session_id,
        scope,
        kind,
        word: None,
        text,
        created_at: now,
        last_recalled_at: None,
        recall_count: 0,
        importance,
        embedding: None,
        embedding_model: None,
        consolidated_into: None,
        dedupe_key: key,
    }
}

/// The position of the memory with a key against double storing, or the length.
pub open spec fn key_slot(rows: Seq<MemoryRowView>, key: Seq<char>) -> int
    decreases rows.len(),
{
    if rows.len() == 0 || rows[0].dedupe_key == Some(key) {
        0
    } else {
        1 + key_slot(rows.drop_first(), key)
    }
}

/// The memory that is stored already under an optional key.
pub open spec fn stored_under(rows: Seq<MemoryRowView>, key: Option<Seq<char>>) -> Option<MemoryRowView> {
    match key {
        None => None,
        Some(k) => if key_slot(rows, k) < rows.len() {
            Some(rows[key_slot(rows, k)])
        } else {
            None
        },
    }
}

/// The tables after a memory was stored, unless its key is known.
pub open spec fn with_memory(
    s: StoreView,
    session_id: Option<Seq<char>>,
    scope: Seq<char>,
    kind: MemoryKind,
    text: Seq<char>,
    importance: Real,
    now: i64,
    key: Option<Seq<char>>,
) -> StoreView {
    if stored_under(s.memories, key) is Some {
        s
    } else {
        StoreView {
            memories: s.memories.push(
                new_row(s.next_id, session_id, scope, kind, text, importance, now, key),
            ),
            next_id: (s.next_id + 1) as i64,
            ..s
        }
    }
}

/// The id under which a memory is stored, and whether it is new.
pub open spec fn memory_id(s: StoreView, key: Option<Seq<char>>) -> (i64, bool) {
    match stored_under(s.memories, key) {
        Some(r) => (r.id, false),
        None => (s.next_id, true),
    }
}

/// Nothing is stored under a key that no memory has.
pub proof fn unknown_keys_are_free(rows: Seq<MemoryRowView>, key: Option<Seq<char>>)
    requires
        key is Some ==> forall|k: int| 0 <= k < rows.len() ==> (#[trigger] rows[k]).dedupe_key != key,
    ensures
        stored_under(rows, key) is None,
{
    if let Some(k) = key {
        key_slot_is_first(rows, k);
    }
}

proof fn key_slot_is_first(rows: Seq<MemoryRowView>, key: Seq<char>)
    ensures
        0 <= key_slot(rows, key) <= rows.len(),
        forall|k: int| 0 <= k < key_slot(rows, key) ==> (#[trigger] rows[k]).dedupe_key != Some(key),
        key_slot(rows, key) < rows.len() ==> rows[key_slot(rows, key)].dedupe_key == Some(key),
    decreases rows.len(),
{
    if rows.len() > 0 && rows[0].dedupe_key != Some(key) {
        let d = rows.drop_first();
        key_slot_is_first(d, key);
        assert forall|k: int| 0 <= k < key_slot(rows, key) implies (#[trigger] rows[k]).dedupe_key != Some(key) by {
            if k > 0 {
                assert(d[k - 1] == rows[k]);
            }
        }
    }
}

proof fn key_slot_at(rows: Seq<MemoryRowView>, key: Seq<char>, i: int)
    requires
        0 <= i <= rows.len(),
        forall|k: int| 0 <= k < i ==> (#[trigger] rows[k]).dedupe_key != Some(key),
        i < rows.len() ==> rows[i].dedupe_key == Some(key),
    ensures
        key_slot(rows, key) == i,
{
    key_slot_is_first(rows, key);
    let j = key_slot(rows, key);
    if j < i {
        assert(rows[j].dedupe_key != Some(key));
    } else if i < j {
        assert(rows[i].dedupe_key != Some(key));
    }
}

/// What was stored under a key is found under it: storing it again stores nothing and names the
/// first memory. No two memories get the same key.
pub proof fn keys_store_once(
    s: StoreView,
    session_id: Option<Seq<char>>,
    scope: Seq<char>,
    kind: MemoryKind,
    text: Seq<char>,
    importance: Real,
    now: i64,
    key: Seq<char>,
)
    ensures
        ({
            let t = with_memory(s, session_id, scope, kind, text, importance, now, Some(key));
            memory_id(t, Some(key)) == (memory_id(s, Some(key)).0, false)
        }),
        keys_differ(s.memories) ==> keys_differ(
            with_memory(s, session_id, scope, kind, text, importance, now, Some(key)).memories,
        ),
        keys_differ(s.memories) ==> keys_differ(
            with_memory(s, session_id, scope, kind, text, importance, now, None).memories,
        ),
{
    let rows = s.memories;
    let t = with_memory(s, session_id, scope, kind, text, importance, now, Some(key)).memories;
    key_slot_is_first(rows, key);
    if key_slot(rows, key) == rows.len() {
        assert forall|k: int| 0 <= k < rows.len() implies (#[trigger] t[k]).dedupe_key != Some(key) by {
            assert(t[k] == rows[k]);
            assert(rows[k].dedupe_key != Some(key));
        }
        key_slot_at(t, key, rows.len() as int);
        if keys_differ(rows) {
            assert forall|i: int, j: int|
                0 <= i < j < t.len() && (#[trigger] t[i]).dedupe_key is Some implies t[i].dedupe_key != (
            #[trigger] t[j]).dedupe_key by {
                assert(t[i] == rows[i]);
                if j < rows.len() {
                    assert(t[j] == rows[j]);
                } else {
                    assert(rows[i].dedupe_key != Some(key));
                }
            }
        }
    }
    let u = with_memory(s, session_id, scope, kind, text, importance, now, None).memories;
    if keys_differ(rows) {
        assert forall|i: int, j: int| 0 <= i < j < u.len() && (#[trigger] u[i]).dedupe_key is Some implies u[i].dedupe_key
            != (#[trigger] u[j]).dedupe_key by {
            assert(u[i] == rows[i]);
            if j < rows.len() {
                assert(u[j] == rows[j]);
            }
        }
    }
}

impl Store {
    fn position_of_key(&self, key: &str) -> (r: usize)
        ensures
            r == key_slot(self@.memories, key@),
            r <= self.memories@.len(),
    {
        let mut i: usize = 0;
        while i < self.memories.len()
            invariant
                i <= self.memories.len(),
                forall|k: int| 0 <= k < i ==> (#[trigger] self@.memories[k]).dedupe_key != Some(key@),
            decreases self.memories.len() - i,
        {
            assert(self@.memories[i as int] == self.memories@[i as int]@);
            let found = match &self.memories[i].dedupe_key {
                Some(k) => same(k.as_str(), key),
                None => false,
            };
            if found {
                proof {
                    key_slot_at(self@.memories, key@, i as int);
                }
                return i;
            }
            i = i + 1;
        }
        proof {
            key_slot_at(self@.memories, key@, i as int);
        }
        i
    }

    /// Stores a memory, unless one is stored under its key already. Gives the id, and whether the
    /// memory is new.
    pub fn insert_memory(
        &mut self,
        session_id: Option<&str>,
        scope: &str,
        kind: MemoryKind,
        text: &str,
        importance: Real,
        now: i64,
        dedupe_key: Option<&str>,
    ) -> (r: (i64, bool))
        requires
            old(self)@.wf(),
            old(self)@.next_id < i64::MAX,
        ensures
            final(self)@ == with_memory(
                old(self)@,
                opt_str_view(session_id),
                scope@,
                kind,
                text@,
                importance,
                now,
                opt_str_view(dedupe_key),
            ),
            r == memory_id(old(self)@, opt_str_view(dedupe_key)),
            final(self)@.wf(),
    {
        if let Some(key) = dedupe_key {
            let i: usize = self.position_of_key(key);
            if i < self.memories.len() {
                assert(self@.memories[i as int] == self.memories@[i as int]@);
                return (self.memories[i].id, false);
            }
        }
        let id: i64 = self.next_id;
        let row = MemoryRow {
            id,
            session_id: owned(session_id),
            scope: scope.to_owned(),
            kind,
            word: None,
            text: text.to_owned(),
            created_at: now,
            last_recalled_at: None,
            recall_count: 0,
            importance,
            embedding: None,
            embedding_model: None,
            consolidated_into: None,
            dedupe_key: owned(dedupe_key),
        };
        let ghost before = self@.memories;
        let ghost v = row@;
        self.memories.push(row);
        self.next_id = id + 1;
        assert(self@.memories =~= before.push(v));
        assert(ids_grow(self@.memories, self@.next_id as int)) by {
            let t = self@.memories;
            assert forall|i: int, j: int| 0 <= i < j < t.len() implies (#[trigger] t[i]).id < (#[trigger] t[j]).id by {
                assert(t[i] == before[i]);
                if j < before.len() {
                    assert(t[j] == before[j]);
                }
            }
            assert forall|i: int| 0 <= i < t.len() implies (#[trigger] t[i]).id < self@.next_id && t[i].id >= 1 by {
                if i < before.len() {
                    assert(t[i] == before[i]);
                }
            }
        }
        (id, true)
    }
}

// ---------------------------------------------------------------------------
// Conversations and questions
// ---------------------------------------------------------------------------

/// A conversation is known.
pub open spec fn conversation_known(s: Seq<ConversationView>, id: Seq<char>) -> bool {
    exists|i: int| 0 <= i < s.len() && (#[trigger] s[i]).id == id
}

/// The tables after a conversation was named; what is known of it stays.
pub open spec fn with_conversation(s: StoreView, id: Seq<char>, scope: Seq<char>, now: i64) -> StoreView {
    if conversation_known(s.conversations, id) {
        s
    } else {
        StoreView {
            conversations: s.conversations.push(ConversationView { id, scope, created_at: now }),
            ..s
        }
    }
}

impl Store {
    /// Notes a conversation, unless it is known.
    pub fn upsert_session(&mut self, id: &str, scope: &str, now: i64)
        requires
            old(self)@.wf(),
        ensures
            final(self)@ == with_conversation(old(self)@, id@, scope@, now),
            final(self)@.wf(),
    {
        let mut i: usize = 0;
        while i < self.conversations.len()
            invariant
                i <= self.conversations.len(),
                *self == *old(self),
                self@.wf(),
                forall|k: int| 0 <= k < i ==> (#[trigger] self@.conversations[k]).id != id@,
            decreases self.conversations.len() - i,
        {
            if same(self.conversations[i].id.as_str(), id) {
                assert(self@.conversations[i as int].id == id@);
                return;
            }
            i = i + 1;
        }
        let c = Conversation { id: id.to_owned(), scope: scope.to_owned(), created_at: now };
        let ghost before = self@.conversations;
        let ghost v = c@;
        self.conversations.push(c);
        assert(self@.conversations =~= before.push(v));
    }

    /// Keeps a question for diagnosis.
    pub fn insert_recall_telemetry(&mut self, input: RecallTelemetryInput)
        requires
            old(self)@.wf(),
        ensures
            final(self)@ == (StoreView { telemetry: old(self)@.telemetry.push(input@), ..old(self)@ }),
            final(self)@.wf(),
    {
        let ghost before = self@.telemetry;
        let ghost v = input@;
        self.telemetry.push(input);
        assert(self@.telemetry =~= before.push(v));
    }
}

// ---------------------------------------------------------------------------
// Changing memories
// ---------------------------------------------------------------------------

/// A change of one memory.
pub enum RowChange {
    /// It was recalled at a moment.
    Recalled(i64),
    /// It was folded into a summary.
    Folded(i64),
    /// Its meaning was found by a model.
    Embedded(Vec<u8>, String),
}

/// The mathematical form of a change.
pub enum RowChangeView {
    Recalled(i64),
    Folded(i64),
    Embedded(Seq<u8>, Seq<char>),
}

impl View for RowChange {
    type V = RowChangeView;

    open spec fn view(&self) -> RowChangeView {
        match self {
            RowChange::Recalled(t) => RowChangeView::Recalled(*t),
            RowChange::Folded(id) => RowChangeView::Folded(*id),
            RowChange::Embedded(b, m) => RowChangeView::Embedded(b@, m@),
        }
    }
}

/// A memory after a change. Its id, scope, kind, text and key never change.
pub open spec fn changed(r: MemoryRowView, c: RowChangeView) -> MemoryRowView {
    match c {
        RowChangeView::Recalled(t) => MemoryRowView {
            recall_count: (r.recall_count + 1) as i64,
            last_recalled_at: Some(t),
            ..r
        },
        RowChangeView::Folded(id) => MemoryRowView { consolidated_into: Some(id), ..r },
        RowChangeView::Embedded(b, m) => MemoryRowView {
            embedding: Some(b),
            embedding_model: Some(m),
            ..r
        },
    }
}

/// The memories after a change of those with the given ids.
pub open spec fn rows_changed(rows: Seq<MemoryRowView>, ids: Seq<i64>, c: RowChangeView) -> Seq<MemoryRowView> {
    rows.map_values(
        |r: MemoryRowView|
            if ids.contains(r.id) {
                changed(r, c)
            } else {
                r
            },
    )
}

fn copy_bytes(v: &Vec<u8>) -> (r: Vec<u8>)
    ensures
        r@ == v@,
{
    let mut r: Vec<u8> = Vec::new();
    let mut i: usize = 0;
    while i < v.len()
        invariant
            i <= v.len(),
            r@ == v@.take(i as int),
        decreases v.len() - i,
    {
        r.push(v[i]);
        i = i + 1;
        assert(r@ =~= v@.take(i as int));
    }
    assert(v@.take(i as int) =~= v@);
    r
}

/// A copy of a memory.
pub fn copy_row(m: &MemoryRow) -> (r: MemoryRow)
    ensures
        r@ == m@,
{
    let embedding = match &m.embedding {
        Some(b) => Some(copy_bytes(b)),
        None => None,
    };
    MemoryRow {
        id: m.id,
        session_id: clone_opt(&m.session_id),
        scope: m.scope.clone(),
        kind: m.kind,
        word: clone_opt(&m.word),
        text: m.text.clone(),
        created_at: m.created_at,
        last_recalled_at: m.last_recalled_at,
        recall_count: m.recall_count,
        importance: m.importance,
        embedding,
        embedding_model: clone_opt(&m.embedding_model),
        consolidated_into: m.consolidated_into,
        dedupe_key: clone_opt(&m.dedupe_key),
    }
}

fn change_row(m: &MemoryRow, c: &RowChange) -> (r: MemoryRow)
    requires
        c is Recalled ==> m.recall_count < i64::MAX,
    ensures
        r@ == changed(m@, c@),
{
    let mut r = copy_row(m);
    match c {
        RowChange::Recalled(t) => {
            r.recall_count = r.recall_count + 1;
            r.last_recalled_at = Some(*t);
        },
        RowChange::Folded(id) => {
            r.consolidated_into = Some(*id);
        },
        RowChange::Embedded(b, m) => {
            r.embedding = Some(copy_bytes(b));
            r.embedding_model = Some(m.clone());
        },
    }
    r
}

/// No memory was recalled as often as can be counted.
pub open spec fn recalls_fit(rows: Seq<MemoryRowView>) -> bool {
    forall|i: int| 0 <= i < rows.len() ==> (#[trigger] rows[i]).recall_count < i64::MAX
}

impl Store {
    /// Changes the memories with the given ids.
    pub fn change_rows(&mut self, ids: &Vec<i64>, c: &RowChange)
        requires
            old(self)@.wf(),
            c is Recalled ==> recalls_fit(old(self)@.memories),
        ensures
            final(self)@ == (StoreView {
                memories: rows_changed(old(self)@.memories, ids@, c@),
                ..old(self)@
            }),
            final(self)@.wf(),
    {
        let ghost before = self@.memories;
        let ghost goal = rows_changed(before, ids@, c@);
        let mut i: usize = 0;
        while i < self.memories.len()
            invariant
                i <= self.memories.len(),
                before == old(self)@.memories,
                goal == rows_changed(before, ids@, c@),
                goal.len() == before.len(),
                c is Recalled ==> recalls_fit(before),
                self.memories@.len() == before.len(),
                self@ == (StoreView { memories: self@.memories, ..old(self)@ }),
                forall|k: int| 0 <= k < i ==> (#[trigger] self.memories@[k])@ == goal[k],
                forall|k: int| i <= k < before.len() ==> (#[trigger] self.memories@[k])@ == before[k],
            decreases before.len() - i,
        {
            let mut k: usize = 0;
            let id: i64 = self.memories[i].id;
            let mut named = false;
            while k < ids.len()
                invariant
                    k <= ids.len(),
                    named == ids@.take(k as int).contains(id),
                decreases ids.len() - k,
            {
                assert(ids@.take(k + 1) =~= ids@.take(k as int).push(ids@[k as int]));
                if ids[k] == id {
                    assert(ids@.take(k + 1)[k as int] == id);
                    named = true;
                } else if named {
                    assert(ids@.take(k + 1)[ids@.take(k as int).index_of(id)] == id);
                }
                k = k + 1;
            }
            assert(ids@.take(k as int) =~= ids@);
            assert(self.memories@[i as int]@ == before[i as int]);
            if named {
                let r = change_row(&self.memories[i], c);
                self.memories.set(i, r);
            }
            i = i + 1;
        }
        assert(self@.memories =~= goal);
        assert(ids_grow(goal, self@.next_id as int)) by {
            assert forall|a: int| 0 <= a < goal.len() implies (#[trigger] goal[a]).id == before[a].id by {}
            assert forall|a: int, b: int| 0 <= a < b < goal.len() implies (#[trigger] goal[a]).id < (
            #[trigger] goal[b]).id by {
                assert(before[a].id < before[b].id);
            }
        }
    }

    /// Counts that the memories with the given ids were recalled.
    pub fn touch_recalled(&mut self, ids: &Vec<i64>, now: i64)
        requires
            old(self)@.wf(),
            recalls_fit(old(self)@.memories),
        ensures
            final(self)@ == (StoreView {
                memories: rows_changed(old(self)@.memories, ids@, RowChangeView::Recalled(now)),
                ..old(self)@
            }),
            final(self)@.wf(),
    {
        self.change_rows(ids, &RowChange::Recalled(now));
    }

    /// Notes that the memories with the given ids were folded into a summary.
    pub fn mark_consolidated(&mut self, ids: &Vec<i64>, summary_id: i64)
        requires
            old(self)@.wf(),
        ensures
            final(self)@ == (StoreView {
                memories: rows_changed(old(self)@.memories, ids@, RowChangeView::Folded(summary_id)),
                ..old(self)@
            }),
            final(self)@.wf(),
    {
        self.change_rows(ids, &RowChange::Folded(summary_id));
    }

    /// Keeps the meaning of a memory.
    pub fn update_embedding(&mut self, id: i64, blob: Vec<u8>, model: &str)
        requires
            old(self)@.wf(),
        ensures
            final(self)@ == (StoreView {
                memories: rows_changed(
                    old(self)@.memories,
                    seq![id],
                    RowChangeView::Embedded(blob@, model@),
                ),
                ..old(self)@
            }),
            final(self)@.wf(),
    {
        let mut ids: Vec<i64> = Vec::new();
        ids.push(id);
        assert(ids@ =~= seq![id]);
        self.change_rows(&ids, &RowChange::Embedded(blob, model.to_owned()));
    }
}

// ---------------------------------------------------------------------------
// Removing memories
// ---------------------------------------------------------------------------

proof fn unmet_rows_grow(rows: Seq<MemoryRowView>, c: ConditionView, next_id: int)
    requires
        ids_grow(rows, next_id),
    ensures
        ids_grow(unmet_rows(rows, c), next_id),
        rows.len() > 0 ==> forall|i: int|
            0 <= i < unmet_rows(rows, c).len() ==> (#[trigger] unmet_rows(rows, c)[i]).id <= rows.last().id,
        unmet_rows(rows, c).len() <= rows.len(),
    decreases rows.len(),
{
    if rows.len() > 0 {
        let d = rows.drop_last();
        let last = rows.last();
        assert(ids_grow(d, last.id as int)) by {
            assert forall|i: int| 0 <= i < d.len() implies (#[trigger] d[i]).id < last.id && d[i].id >= 1 by {
                assert(rows[i].id < rows[rows.len() - 1].id);
            }
            assert forall|i: int, j: int| 0 <= i < j < d.len() implies (#[trigger] d[i]).id < (#[trigger] d[j]).id by {
                assert(rows[i].id < rows[j].id);
            }
            assert(rows[rows.len() - 1].id >= 1);
        }
        unmet_rows_grow(d, c, last.id as int);
        let w = unmet_rows(d, c);
        let t = unmet_rows(rows, c);
        assert(last.id < next_id) by {
            assert(rows[rows.len() - 1].id < next_id);
        }
        assert forall|i: int| 0 <= i < t.len() implies (#[trigger] t[i]).id <= last.id && t[i].id >= 1 by {
            if i < w.len() {
                assert(t[i] == w[i]);
            }
        }
        assert forall|i: int, j: int| 0 <= i < j < t.len() implies (#[trigger] t[i]).id < (#[trigger] t[j]).id by {
            assert(t[i] == w[i]);
            if j < w.len() {
                assert(t[j] == w[j]);
            }
        }
    }
}

impl Store {
    /// Removes the memories that meet a condition, and gives their number.
    pub fn remove_rows(&mut self, c: &Condition) -> (r: u64)
        requires
            old(self)@.wf(),
        ensures
            final(self)@ == (StoreView { memories: unmet_rows(old(self)@.memories, c@), ..old(self)@ }),
            r == met_rows(old(self)@.memories, c@).len(),
            final(self)@.wf(),
    {
        let ghost rows = self@.memories;
        let mut kept: Vec<MemoryRow> = Vec::new();
        let mut i: usize = 0;
        let mut gone: u64 = 0;
        assert(rows_of(kept@) =~= unmet_rows(rows.take(0), c@));
        while i < self.memories.len()
            invariant
                i <= self.memories.len(),
                rows == self@.memories,
                gone <= i,
                rows_of(kept@) == unmet_rows(rows.take(i as int), c@),
                gone == met_rows(rows.take(i as int), c@).len(),
            decreases self.memories.len() - i,
        {
            assert(rows.take(i + 1).drop_last() =~= rows.take(i as int));
            assert(rows[i as int] == self.memories@[i as int]@);
            if c.is_met(&self.memories[i]) {
                gone = gone + 1;
            } else {
                let ghost before = rows_of(kept@);
                kept.push(copy_row(&self.memories[i]));
                assert(rows_of(kept@) =~= before.push(rows[i as int]));
            }
            i = i + 1;
        }
        assert(rows.take(i as int) =~= rows);
        proof {
            unmet_rows_grow(rows, c@, self@.next_id as int);
        }
        self.memories = kept;
        gone
    }

    /// Removes the memories with the given ids, and gives their number.
    pub fn delete_memories(&mut self, ids: &Vec<i64>) -> (r: u64)
        requires
            old(self)@.wf(),
        ensures
            final(self)@ == (StoreView {
                memories: unmet_rows(old(self)@.memories, ConditionView::Ids(ids@)),
                ..old(self)@
            }),
            r == met_rows(old(self)@.memories, ConditionView::Ids(ids@)).len(),
            final(self)@.wf(),
    {
        let mut copy: Vec<i64> = Vec::new();
        let mut i: usize = 0;
        while i < ids.len()
            invariant
                i <= ids.len(),
                copy@ == ids@.take(i as int),
            decreases ids.len() - i,
        {
            copy.push(ids[i]);
            i = i + 1;
            assert(copy@ =~= ids@.take(i as int));
        }
        assert(copy@ =~= ids@);
        self.remove_rows(&Condition::Ids(copy))
    }

    /// Removes the memories of a scope, or of all, that were folded into a summary.
    pub fn delete_consolidated(&mut self, scope: Option<&str>) -> (r: u64)
        requires
            old(self)@.wf(),
        ensures
            final(self)@ == (StoreView {
                memories: unmet_rows(old(self)@.memories, folded_rows(opt_str_view(scope))),
                ..old(self)@
            }),
            r == met_rows(old(self)@.memories, folded_rows(opt_str_view(scope))).len(),
            final(self)@.wf(),
    {
        let mut f = RowFilter::of(scope);
        f.foldable = true;
        f.folded = Some(true);
        self.remove_rows(&Condition::Rows(f))
    }
}

/// The memories that were folded into a summary.
pub open spec fn folded_rows(scope: Option<Seq<char>>) -> ConditionView {
    ConditionView::Rows(FilterView { foldable: true, folded: Some(true), ..any_of(scope) })
}

// ---------------------------------------------------------------------------
// Remembering
// ---------------------------------------------------------------------------

/// The mathematical form of what is to be remembered.
pub struct ItemView {
    pub kind: MemoryKind,
    pub text: Seq<char>,
    pub importance: Option<Real>,
    pub dedupe_key: Option<Seq<char>>,
}

impl View for MemoryItem {
    type V = ItemView;

    open spec fn view(&self) -> ItemView {
        ItemView {
            kind: self.kind,
            text: self.text@,
            importance: self.importance,
            dedupe_key: opt_text(self.dedupe_key),
        }
    }
}

/// The mathematical forms of what is to be remembered.
pub open spec fn items_of(v: Seq<MemoryItem>) -> Seq<ItemView> {
    v.map_values(|i: MemoryItem| i@)
}

/// The bits of the number one, the importance of what was given none.
pub const USUAL_IMPORTANCE_BITS: u64 = 0x3FF0_0000_0000_0000;

/// The importance of an item.
pub open spec fn importance_of(i: ItemView) -> Real {
    match i.importance {
        Some(x) => x,
        None => Real { bits: USUAL_IMPORTANCE_BITS },
    }
}

/// The tables after items were stored one by one.
pub open spec fn with_items(
    s: StoreView,
    session_id: Option<Seq<char>>,
    scope: Seq<char>,
    items: Seq<ItemView>,
    now: i64,
) -> StoreView
    decreases items.len(),
{
    if items.len() == 0 {
        s
    } else {
        let i = items.last();
        with_memory(
            with_items(s, session_id, scope, items.drop_last(), now),
            session_id,
            scope,
            i.kind,
            i.text,
            importance_of(i),
            now,
            i.dedupe_key,
        )
    }
}

/// The ids under which items are stored one by one, and which of them are new.
pub open spec fn item_ids(
    s: StoreView,
    session_id: Option<Seq<char>>,
    scope: Seq<char>,
    items: Seq<ItemView>,
    now: i64,
) -> Seq<(i64, bool)>
    decreases items.len(),
{
    if items.len() == 0 {
        Seq::empty()
    } else {
        let before = items.drop_last();
        item_ids(s, session_id, scope, before, now).push(
            memory_id(with_items(s, session_id, scope, before, now), items.last().dedupe_key),
        )
    }
}

/// Some item has a blank text.
pub open spec fn has_blank_item(items: Seq<ItemView>) -> bool {
    exists|i: int| 0 <= i < items.len() && blank((#[trigger] items[i]).text)
}

/// The tables before the items are stored: the conversation is noted.
pub open spec fn conversation_noted(s: StoreView, session_id: Option<Seq<char>>, scope: Seq<char>, now: i64) -> StoreView {
    match session_id {
        Some(id) => with_conversation(s, id, scope, now),
        None => s,
    }
}

impl Store {
    /// Stores what is to be remembered. Gives for each item the id under which it is stored, and
    /// whether it is new.
    pub fn remember(&mut self, input: &RememberInput, now: i64) -> (r: Result<Vec<(i64, bool)>, MemoryError>)
        requires
            old(self)@.wf(),
            old(self)@.next_id + input.items@.len() <= i64::MAX,
        ensures
            final(self)@.wf(),
            ({
                let items = items_of(input.items@);
                if items.len() == 0 {
                    &&& r matches Err(MemoryError::InvalidQuery(m)) && m@ == "remember requires at least one item"@
                    &&& final(self)@ == old(self)@
                } else if has_blank_item(items) {
                    &&& r matches Err(MemoryError::InvalidQuery(m)) && m@ == "memory item text is required"@
                    &&& final(self)@ == old(self)@
                } else {
                    match parsed_scope(input.scope@) {
                        None => (r matches Err(MemoryError::InvalidScope(t)) && t@ == trimmed(input.scope@)) && final(self)@ == old(self)@,
                        Some(scope) => {
                            let text = scope_text(scope);
                            let session = opt_text(input.session_id);
                            let start = conversation_noted(old(self)@, session, text, now);
                            r is Ok && r->Ok_0@ == item_ids(start, session, text, items, now) && final(self)@
                                == with_items(start, session, text, items, now)
                        },
                    }
                }
            }),
    {
        let ghost items = items_of(input.items@);
        if input.items.len() == 0 {
            return Err(MemoryError::InvalidQuery("remember requires at least one item".to_owned()));
        }
        let mut i: usize = 0;
        while i < input.items.len()
            invariant
                i <= input.items.len(),
                items == items_of(input.items@),
                items.len() > 0,
                *self == *old(self),
                self@.wf(),
                forall|k: int| 0 <= k < i ==> !blank((#[trigger] items[k]).text),
            decreases input.items.len() - i,
        {
            assert(items[i as int] == input.items@[i as int]@);
            if is_blank(input.items[i].text.as_str()) {
                return Err(MemoryError::InvalidQuery("memory item text is required".to_owned()));
            }
            i = i + 1;
        }
        let scope = match Scope::parse(input.scope.as_str()) {
            Ok(s) => s,
            Err(e) => {
                return Err(e);
            },
        };
        let text = scope.text();
        let session: Option<&str> = match &input.session_id {
            Some(s) => Some(s.as_str()),
            None => None,
        };
        if let Some(s) = session {
            self.upsert_session(s, text.as_str(), now);
        }
        let ghost start = self@;
        let mut ids: Vec<(i64, bool)> = Vec::new();
        let mut j: usize = 0;
        assert(items.take(0) =~= Seq::empty());
        while j < input.items.len()
            invariant
                j <= input.items.len(),
                items == items_of(input.items@),
                opt_str_view(session) == opt_text(input.session_id),
                start.next_id == old(self)@.next_id,
                old(self)@.next_id + input.items@.len() <= i64::MAX,
                self@.wf(),
                self@.next_id <= start.next_id + j,
                self@ == with_items(start, opt_text(input.session_id), text@, items.take(j as int), now),
                ids@ == item_ids(start, opt_text(input.session_id), text@, items.take(j as int), now),
            decreases input.items.len() - j,
        {
            assert(items[j as int] == input.items@[j as int]@);
            assert(items.take(j + 1).drop_last() =~= items.take(j as int));
            assert(items.take(j + 1).last() == items[j as int]);
            let item = &input.items[j];
            let importance = match item.importance {
                Some(x) => x,
                None => Real { bits: USUAL_IMPORTANCE_BITS },
            };
            let key: Option<&str> = match &item.dedupe_key {
                Some(k) => Some(k.as_str()),
                None => None,
            };
            let id = self.insert_memory(
                session,
                text.as_str(),
                item.kind,
                item.text.as_str(),
                importance,
                now,
                key,
            );
            ids.push(id);
            j = j + 1;
        }
        assert(items.take(j as int) =~= items);
        Ok(ids)
    }
}

proof fn one_row_under_an_id(rows: Seq<MemoryRowView>, next_id: int, i: int)
    requires
        ids_grow(rows, next_id),
        0 <= i < rows.len(),
    ensures
        met_rows(rows, ConditionView::Ids(seq![rows[i].id])) == seq![rows[i]],
    decreases rows.len(),
{
    let c = ConditionView::Ids(seq![rows[i].id]);
    let d = rows.drop_last();
    assert(seq![rows[i].id][0] == rows[i].id);
    if i == rows.len() - 1 {
        none_under_an_id(d, rows[i].id);
        assert(met_rows(rows, c) =~= seq![rows[i]]);
    } else {
        assert(d[i] == rows[i]);
        assert(ids_grow(d, next_id));
        one_row_under_an_id(d, next_id, i);
        assert(!c.met(rows.last()));
    }
}

proof fn none_under_an_id(rows: Seq<MemoryRowView>, id: i64)
    requires
        forall|i: int| 0 <= i < rows.len() ==> (#[trigger] rows[i]).id < id,
    ensures
        met_rows(rows, ConditionView::Ids(seq![id])) == Seq::<MemoryRowView>::empty(),
    decreases rows.len(),
{
    if rows.len() > 0 {
        assert(rows[rows.len() - 1].id < id);
        none_under_an_id(rows.drop_last(), id);
    }
}

/// What is remembered is read back under the id that was given for it, as it was remembered, and
/// all that was remembered before is still there.
pub proof fn memories_are_read_back(
    s: StoreView,
    session_id: Option<Seq<char>>,
    scope: Seq<char>,
    kind: MemoryKind,
    text: Seq<char>,
    importance: Real,
    now: i64,
    key: Option<Seq<char>>,
)
    requires
        s.wf(),
        s.next_id < i64::MAX,
    ensures
        ({
            let t = with_memory(s, session_id, scope, kind, text, importance, now, key);
            let (id, new) = memory_id(s, key);
            let found = met_rows(t.memories, ConditionView::Ids(seq![id]));
            &&& found.len() == 1 && found[0].id == id
            &&& new ==> found[0] == new_row(id, session_id, scope, kind, text, importance, now, key)
            &&& !new ==> found[0].dedupe_key == key && key is Some && t == s
            &&& t.memories.take(s.memories.len() as int) == s.memories
        }),
{
    let t = with_memory(s, session_id, scope, kind, text, importance, now, key);
    if stored_under(s.memories, key) is Some {
        let k = key->0;
        let i = key_slot(s.memories, k);
        key_slot_is_first(s.memories, k);
        one_row_under_an_id(s.memories, s.next_id as int, i);
        assert(t.memories.take(s.memories.len() as int) =~= s.memories);
    } else {
        let n = s.memories.len() as int;
        assert(ids_grow(t.memories, t.next_id as int)) by {
            assert forall|i: int, j: int| 0 <= i < j < t.memories.len() implies (#[trigger] t.memories[i]).id < (
            #[trigger] t.memories[j]).id by {
                assert(t.memories[i] == s.memories[i]);
                if j < n {
                    assert(t.memories[j] == s.memories[j]);
                }
            }
            assert forall|i: int| 0 <= i < t.memories.len() implies (#[trigger] t.memories[i]).id >= 1
                && t.memories[i].id < t.next_id by {
                if i < n {
                    assert(t.memories[i] == s.memories[i]);
                }
            }
        }
        one_row_under_an_id(t.memories, t.next_id as int, n);
        assert(t.memories.take(n) =~= s.memories);
    }
}

} // verus!
