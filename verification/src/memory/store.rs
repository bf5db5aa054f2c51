//! The rows of the memory, as they are read from and written back to the database.
use crate::memory::model::{MemoryKind, RecallMode};
use crate::memory::sessions::{links_of, one_link_per_scope, one_state_per_scope, states_of};
use crate::memory::sessions::{AgentSession, AgentSessionState, LinkView, StateView};
use crate::order::Real;
use crate::text::opt_text;
use vstd::prelude::*;

verus! {

/// A stored memory.
#[derive(Debug, Clone, PartialEq, Eq)]
pub struct MemoryRow {
    pub id: i64,
    /// The conversation it was made in.
    pub session_id: Option<String>,
    pub scope: String,
    pub kind: MemoryKind,
    /// The word of its category where it is not a known one. The memory is read as a note, but it
    /// is not among the notes that are asked for, folded or forgotten.
    pub word: Option<String>,
    pub text: String,
    pub created_at: i64,
    pub last_recalled_at: Option<i64>,
    pub recall_count: i64,
    pub importance: Real,
    /// Its meaning as bytes, and the model that found it.
    pub embedding: Option<Vec<u8>>,
    pub embedding_model: Option<String>,
    /// The summary that it was folded into.
    pub consolidated_into: Option<i64>,
    /// What keeps the same memory from being stored twice.
    pub dedupe_key: Option<String>,
}

/// The bytes of an optional vector.
pub open spec fn opt_bytes(o: Option<Vec<u8>>) -> Option<Seq<u8>> {
    match o {
        Some(v) => Some(v@),
        None => None,
    }
}

/// The mathematical form of a stored memory.
pub struct MemoryRowView {
    pub id: i64,
    pub session_id: Option<Seq<char>>,
    pub scope: Seq<char>,
    pub kind: MemoryKind,
    pub word: Option<Seq<char>>,
    pub text: Seq<char>,
    pub created_at: i64,
    pub last_recalled_at: Option<i64>,
    pub recall_count: i64,
    pub importance: Real,
    pub embedding: Option<Seq<u8>>,
    pub embedding_model: Option<Seq<char>>,
    pub consolidated_into: Option<i64>,
    pub dedupe_key: Option<Seq<char>>,
}

impl View for MemoryRow {
    type V = MemoryRowView;

    open spec fn view(&self) -> MemoryRowView {
        MemoryRowView {
            id: self.id,
            session_id: opt_text(self.session_id),
            scope: self.scope@,
            kind: self.kind,
            word: opt_text(self.word),
            text: self.text@,
            created_at: self.created_at,
            last_recalled_at: self.last_recalled_at,
            recall_count: self.recall_count,
            importance: self.importance,
            embedding: opt_bytes(self.embedding),
            embedding_model: opt_text(self.embedding_model),
            consolidated_into: self.consolidated_into,
            dedupe_key: opt_text(self.dedupe_key),
        }
    }
}

/// The mathematical forms of stored memories.
pub open spec fn rows_of(v: Seq<MemoryRow>) -> Seq<MemoryRowView> {
    v.map_values(|r: MemoryRow| r@)
}

/// A conversation in which memories were made.
#[derive(Debug, Clone, PartialEq, Eq)]
pub struct Conversation {
    pub id: String,
    pub scope: String,
    pub created_at: i64,
}

/// The mathematical form of a conversation.
pub struct ConversationView {
    pub id: Seq<char>,
    pub scope: Seq<char>,
    pub created_at: i64,
}

impl View for Conversation {
    type V = ConversationView;

    open spec fn view(&self) -> ConversationView {
        ConversationView { id: self.id@, scope: self.scope@, created_at: self.created_at }
    }
}

/// The mathematical forms of conversations.
pub open spec fn conversations_of(v: Seq<Conversation>) -> Seq<ConversationView> {
    v.map_values(|c: Conversation| c@)
}

/// A question as it is kept for diagnosis; of its text only a hash.
#[derive(Debug, Clone, PartialEq, Eq)]
pub struct RecallTelemetryInput {
    pub query_hash: String,
    pub mode: RecallMode,
    pub top_k: usize,
    pub scope: Option<String>,
    pub hit_count: usize,
    pub top_relevance: Real,
    pub skipped: bool,
    pub latency_ms: u64,
    pub created_at: i64,
}

/// The mathematical form of a kept question.
pub struct TelemetryView {
    pub query_hash: Seq<char>,
    pub mode: RecallMode,
    pub top_k: nat,
    pub scope: Option<Seq<char>>,
    pub hit_count: nat,
    pub top_relevance: Real,
    pub skipped: bool,
    pub latency_ms: u64,
    pub created_at: i64,
}

impl View for RecallTelemetryInput {
    type V = TelemetryView;

    open spec fn view(&self) -> TelemetryView {
        TelemetryView {
            query_hash: self.query_hash@,
            mode: self.mode,
            top_k: self.top_k as nat,
            scope: opt_text(self.scope),
            hit_count: self.hit_count as nat,
            top_relevance: self.top_relevance,
            skipped: self.skipped,
            latency_ms: self.latency_ms,
            created_at: self.created_at,
        }
    }
}

/// The mathematical forms of kept questions.
pub open spec fn telemetry_of(v: Seq<RecallTelemetryInput>) -> Seq<TelemetryView> {
    v.map_values(|t: RecallTelemetryInput| t@)
}

/// The tables of the memory.
#[derive(Debug, Clone, PartialEq, Eq)]
pub struct Store {
    pub memories: Vec<MemoryRow>,
    /// The id of the next memory; no id is given twice.
    pub next_id: i64,
    pub conversations: Vec<Conversation>,
    /// The agent session that each scope continues.
    pub sessions: Vec<AgentSession>,
    pub states: Vec<AgentSessionState>,
    pub telemetry: Vec<RecallTelemetryInput>,
}

/// The mathematical form of the tables.
pub struct StoreView {
    pub memories: Seq<MemoryRowView>,
    pub next_id: i64,
    pub conversations: Seq<ConversationView>,
    pub sessions: Seq<LinkView>,
    pub states: Seq<StateView>,
    pub telemetry: Seq<TelemetryView>,
}

impl View for Store {
    type V = StoreView;

    open spec fn view(&self) -> StoreView {
        StoreView {
            memories: rows_of(self.memories@),
            next_id: self.next_id,
            conversations: conversations_of(self.conversations@),
            sessions: links_of(self.sessions@),
            states: states_of(self.states@),
            telemetry: telemetry_of(self.telemetry@),
        }
    }
}

/// Ids are positive, grow from row to row and stay below the next one.
pub open spec fn ids_grow(rows: Seq<MemoryRowView>, next_id: int) -> bool {
    &&& next_id >= 1
    &&& forall|i: int| 0 <= i < rows.len() ==> (#[trigger] rows[i]).id >= 1
    &&& forall|i: int, j: int| 0 <= i < j < rows.len() ==> (#[trigger] rows[i]).id < (#[trigger] rows[j]).id
    &&& forall|i: int| 0 <= i < rows.len() ==> (#[trigger] rows[i]).id < next_id
}

/// No two rows have the same key against double storing.
pub open spec fn keys_differ(rows: Seq<MemoryRowView>) -> bool {
    forall|i: int, j: int|
        0 <= i < j < rows.len() && (#[trigger] rows[i]).dedupe_key is Some ==> rows[i].dedupe_key != (
        #[trigger] rows[j]).dedupe_key
}

impl StoreView {
    /// What every operation keeps.
    pub open spec fn wf(self) -> bool {
        &&& ids_grow(self.memories, self.next_id as int)
        &&& one_state_per_scope(self.states)
        &&& one_link_per_scope(self.sessions)
    }
}

impl Store {
    /// An empty store.
    pub fn new() -> (r: Store)
        ensures
            r@.wf(),
            r@ == (StoreView {
                memories: Seq::empty(),
                next_id: 1,
                conversations: Seq::empty(),
                sessions: Seq::empty(),
                states: Seq::empty(),
                telemetry: Seq::empty(),
            }),
    {
        let r = Store {
            memories: Vec::new(),
            next_id: 1,
            conversations: Vec::new(),
            sessions: Vec::new(),
            states: Vec::new(),
            telemetry: Vec::new(),
        };
        assert(r@.memories =~= Seq::empty());
        assert(r@.conversations =~= Seq::empty());
        assert(r@.sessions =~= Seq::empty());
        assert(r@.states =~= Seq::empty());
        assert(r@.telemetry =~= Seq::empty());
        r
    }
}

} // verus!
