//! What is stored and what is asked.
use crate::order::Real;
use crate::text::{opt_text, same};
use vstd::prelude::*;

verus! {

/// The category of a memory.
#[derive(Debug, Clone, Copy, PartialEq, Eq, Structural)]
pub enum MemoryKind {
    Decision,
    Event,
    Skill,
    Note,
    Summary,
}

/// The stored word of a category.
pub open spec fn kind_word(k: MemoryKind) -> Seq<char> {
    match k {
        MemoryKind::Decision => "decision"@,
        MemoryKind::Event => "event"@,
        MemoryKind::Skill => "skill"@,
        MemoryKind::Note => "note"@,
        MemoryKind::Summary => "summary"@,
    }
}

/// The category of a stored word; an unknown word is a note.
pub open spec fn kind_of(s: Seq<char>) -> MemoryKind {
    if s == "decision"@ {
        MemoryKind::Decision
    } else if s == "event"@ {
        MemoryKind::Event
    } else if s == "skill"@ {
        MemoryKind::Skill
    } else if s == "summary"@ {
        MemoryKind::Summary
    } else {
        MemoryKind::Note
    }
}

impl MemoryKind {
    /// The stored word of the category.
    pub fn as_str(&self) -> (r: &'static str)
        ensures
            r@ == kind_word(*self),
    {
        match self {
            MemoryKind::Decision => "decision",
            MemoryKind::Event => "event",
            MemoryKind::Skill => "skill",
            MemoryKind::Note => "note",
            MemoryKind::Summary => "summary",
        }
    }

    /// Whether a stored word is that of a category.
    pub fn is_db_str(s: &str) -> (r: bool)
        ensures
            r == (kind_word(kind_of(s@)) == s@),
    {
        same(MemoryKind::from_db_str(s).as_str(), s)
    }

    /// The category of a stored word.
    pub fn from_db_str(s: &str) -> (r: MemoryKind)
        ensures
            r == kind_of(s@),
    {
        if same(s, "decision") {
            MemoryKind::Decision
        } else if same(s, "event") {
            MemoryKind::Event
        } else if same(s, "skill") {
            MemoryKind::Skill
        } else if same(s, "summary") {
            MemoryKind::Summary
        } else {
            MemoryKind::Note
        }
    }
}

/// The stored word of a category reads back as the category.
pub proof fn kinds_round_trip(k: MemoryKind)
    ensures
        kind_of(kind_word(k)) == k,
{
    reveal_strlit("decision");
    reveal_strlit("event");
    reveal_strlit("skill");
    reveal_strlit("note");
    reveal_strlit("summary");
    assert("decision"@.len() == 8);
    assert("event"@[0] == 'e');
    assert("skill"@[0] == 's');
    assert("note"@.len() == 4);
    assert("summary"@.len() == 7);
}

/// A memory to store.
#[derive(Debug, Clone, PartialEq, Eq)]
pub struct MemoryItem {
    pub kind: MemoryKind,
    pub text: String,
    pub importance: Option<Real>,
    /// A key that makes a repeated write give back the stored memory.
    pub dedupe_key: Option<String>,
}

/// Memories to store in one scope.
#[derive(Debug, Clone, PartialEq, Eq)]
pub struct RememberInput {
    pub scope: String,
    pub session_id: Option<String>,
    pub items: Vec<MemoryItem>,
}

/// How memories are looked for.
#[derive(Debug, Clone, Copy, PartialEq, Eq, Structural)]
pub enum RecallMode {
    Keyword,
    Tree,
    Hybrid,
}

impl Default for RecallMode {
    fn default() -> (r: RecallMode)
        ensures
            r == RecallMode::Hybrid,
    {
        RecallMode::Hybrid
    }
}

/// The stored word of a mode.
pub open spec fn mode_word(m: RecallMode) -> Seq<char> {
    match m {
        RecallMode::Keyword => "keyword"@,
        RecallMode::Tree => "tree"@,
        RecallMode::Hybrid => "hybrid"@,
    }
}

impl RecallMode {
    /// The stored word of the mode.
    pub fn as_str(&self) -> (r: &'static str)
        ensures
            r@ == mode_word(*self),
    {
        match self {
            RecallMode::Keyword => "keyword",
            RecallMode::Tree => "tree",
            RecallMode::Hybrid => "hybrid",
        }
    }
}

/// The number of memories asked for where no number is given.
pub const DEFAULT_TOP_K: usize = 5;

/// A question to the memory.
#[derive(Debug, Clone, PartialEq, Eq)]
pub struct RecallQuery {
    pub query: String,
    pub top_k: usize,
    /// Only this scope and those it falls back to.
    pub scope: Option<String>,
    pub mode: RecallMode,
}

/// How a score came about.
#[derive(Debug, Clone, PartialEq, Eq)]
pub struct RecallExplanation {
    pub lexical: Real,
    pub semantic: Real,
    pub relevance: Real,
    pub decay: Real,
    pub importance: Real,
    pub recall_bonus: Real,
    pub age_seconds: i64,
    pub recall_count: i64,
    pub source_signals: Vec<String>,
}

/// A memory that answers a question.
#[derive(Debug, Clone, PartialEq, Eq)]
pub struct RecallHit {
    pub id: i64,
    pub scope: String,
    pub kind: MemoryKind,
    pub text: String,
    pub score: Real,
    pub explanation: RecallExplanation,
}

/// Where an answer comes from.
#[derive(Debug, Clone, PartialEq, Eq)]
pub struct Evidence {
    pub id: i64,
    pub scope: String,
    pub score: Real,
}

/// An answer with its evidence.
#[derive(Debug, Clone, PartialEq, Eq)]
pub struct WukongResult<T> {
    pub data: T,
    pub evidence: Vec<Evidence>,
    pub confidence: Real,
    pub latency_ms: u64,
}

/// How many memories a scope has.
#[derive(Debug, Clone, PartialEq, Eq)]
pub struct ScopeCount {
    pub scope: String,
    pub count: i64,
}

/// How many memories there are.
#[derive(Debug, Clone, PartialEq, Eq)]
pub struct Stats {
    pub total: i64,
    pub by_scope: Vec<ScopeCount>,
}

/// How many memories a category has.
#[derive(Debug, Clone, PartialEq, Eq)]
pub struct KindCount {
    pub kind: MemoryKind,
    pub count: i64,
}

/// How many memories are how old.
#[derive(Debug, Clone, Copy, PartialEq, Eq, Structural)]
pub struct AgeBuckets {
    pub last_day: i64,
    pub last_week: i64,
    pub last_month: i64,
    pub older: i64,
}

/// How many memories have an embedding.
#[derive(Debug, Clone, Copy, PartialEq, Eq, Structural)]
pub struct EmbeddingCoverage {
    pub embedded: i64,
    pub total: i64,
}

/// The state of the memory at one moment.
#[derive(Debug, Clone, PartialEq, Eq)]
pub struct Snapshot {
    pub total: i64,
    pub by_scope: Vec<ScopeCount>,
    pub by_kind: Vec<KindCount>,
    pub age: AgeBuckets,
    pub embedding: EmbeddingCoverage,
    pub consolidation_candidates: i64,
    pub prune_candidates: i64,
}

/// A stored memory as it is shown.
#[derive(Debug, Clone, PartialEq, Eq)]
pub struct MemoryRecord {
    pub id: i64,
    pub scope: String,
    pub session_id: Option<String>,
    pub kind: MemoryKind,
    pub text: String,
    pub importance: Real,
    pub created_at: i64,
    pub last_recalled_at: Option<i64>,
    pub recall_count: i64,
    pub has_embedding: bool,
    pub consolidated_into: Option<i64>,
}

/// The mathematical form of a shown memory.
pub struct MemoryRecordView {
    pub id: i64,
    pub scope: Seq<char>,
    pub session_id: Option<Seq<char>>,
    pub kind: MemoryKind,
    pub text: Seq<char>,
    pub importance: Real,
    pub created_at: i64,
    pub last_recalled_at: Option<i64>,
    pub recall_count: i64,
    pub has_embedding: bool,
    pub consolidated_into: Option<i64>,
}

impl View for MemoryRecord {
    type V = MemoryRecordView;

    open spec fn view(&self) -> MemoryRecordView {
        MemoryRecordView {
            id: self.id,
            scope: self.scope@,
            session_id: opt_text(self.session_id),
            kind: self.kind,
            text: self.text@,
            importance: self.importance,
            created_at: self.created_at,
            last_recalled_at: self.last_recalled_at,
            recall_count: self.recall_count,
            has_embedding: self.has_embedding,
            consolidated_into: self.consolidated_into,
        }
    }
}

/// The mathematical forms of shown memories.
pub open spec fn records_of(v: Seq<MemoryRecord>) -> Seq<MemoryRecordView> {
    v.map_values(|r: MemoryRecord| r@)
}

/// The newest memories, and whether there are older ones.
#[derive(Debug, Clone, PartialEq, Eq)]
pub struct MemoryRecordsPage {
    pub records: Vec<MemoryRecord>,
    pub has_more: bool,
}

/// A memory that can be folded into a summary.
#[derive(Debug, Clone, PartialEq, Eq)]
pub struct ConsolidationRow {
    pub id: i64,
    pub session_id: Option<String>,
    pub text: String,
    pub importance: Real,
}

/// The mathematical form of a memory that can be folded.
pub struct ConsolidationRowView {
    pub id: i64,
    pub session_id: Option<Seq<char>>,
    pub text: Seq<char>,
    pub importance: Real,
}

impl View for ConsolidationRow {
    type V = ConsolidationRowView;

    open spec fn view(&self) -> ConsolidationRowView {
        ConsolidationRowView {
            id: self.id,
            session_id: opt_text(self.session_id),
            text: self.text@,
            importance: self.importance,
        }
    }
}

/// The mathematical forms of memories that can be folded.
pub open spec fn folds_of(v: Seq<ConsolidationRow>) -> Seq<ConsolidationRowView> {
    v.map_values(|r: ConsolidationRow| r@)
}

} // verus!
