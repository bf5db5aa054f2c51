//! Answering a question: what is looked for, and what is made of what was found.
use crate::memory::candidates::{
    admitted_scopes, all_joined, apply_vector_sims, candidates_of, combine, combined, filter_by_scope,
    filtered_lists_stay_inside, opt_scope, rank,
    ranked, ranked_rows_are_candidates, scope_filtered, scope_texts, scored_of, scored_with,
    sources_for_mode, Candidate, CandidateView, Scored, ScoreParts,
    ScoredView,
};
use crate::memory::error::MemoryError;
use crate::memory::model::{Evidence, RecallExplanation, RecallHit, RecallMode, RecallQuery};
use crate::memory::queries::{
    any_row, as_candidates, candidate_of, embedded_of, holding, opt_texts, selected, ConditionView, FilterView, RowOrder,
};
use crate::memory::recall::{
    contains_cjk, expanded, fts_match_string, has_cjk, is_trivial, match_expression, tokens, trivial,
};
use crate::memory::scope::{parsed_scope, scope_text, Scope, ScopeView};
use crate::memory::store::{MemoryRowView, RecallTelemetryInput, Store};
use crate::order::{rank_of, Real};
use crate::text::{blank, clone_opt, clone_texts, is_blank, opt_text, str_trim, trimmed};
use vstd::prelude::*;
use vstd::utf8::encode_utf8;

verus! {

// ---------------------------------------------------------------------------
// Limits and hashes
// ---------------------------------------------------------------------------

/// How many memories each source is asked for: ten times as many as are wanted, and at least
/// fifty.
pub open spec fn source_limit(top_k: nat) -> nat {
    if top_k <= 5 {
        50
    } else {
        10 * top_k
    }
}

/// How many memories each source is asked for.
pub fn fetch_limit(top_k: usize) -> (r: i64)
    requires
        10 * top_k <= i64::MAX,
    ensures
        r == source_limit(top_k as nat),
{
    if top_k <= 5 {
        50
    } else {
        top_k as i64 * 10
    }
}

/// How many memories are looked for by meaning: four times as many as are wanted, and at least
/// twenty.
pub open spec fn meaning_limit(top_k: nat) -> nat {
    if top_k <= 5 {
        20
    } else {
        4 * top_k
    }
}

/// The bytes of a text mixed into one number, from left to right: each is combined by exclusive
/// or, and the outcome is multiplied, leaving aside what does not fit.
pub open spec fn mixed(bytes: Seq<u8>) -> u64
    decreases bytes.len(),
{
    if bytes.len() == 0 {
        0xcbf2_9ce4_8422_2325
    } else {
        (((mixed(bytes.drop_last()) ^ (bytes.last() as u64)) as nat * 0x0100_0000_01b3) % 0x1_0000_0000_0000_0000) as u64
    }
}

/// The digit of a number below sixteen.
pub open spec fn hex_digit(n: int) -> char {
    if n < 10 {
        (48 + n) as char
    } else {
        (87 + n) as char
    }
}

/// A number in so many digits to the base of sixteen.
pub open spec fn hex(n: int, digits: nat) -> Seq<char>
    decreases digits,
{
    if digits == 0 {
        Seq::empty()
    } else {
        hex(n / 16, (digits - 1) as nat).push(hex_digit(n % 16))
    }
}

/// The hash of a question: that of its text without the white space around it.
pub open spec fn hash_of(query: Seq<char>) -> Seq<char> {
    hex(mixed(encode_utf8(trimmed(query))) as int, 16)
}

fn digit_char(n: u64) -> (r: char)
    requires
        n < 16,
    ensures
        r == hex_digit(n as int),
{
    if n < 10 {
        (48 + n as u8) as char
    } else {
        (87 + n as u8) as char
    }
}

fn hex_text(n: u64, digits: usize) -> (r: String)
    ensures
        r@ == hex(n as int, digits as nat),
    decreases digits,
{
    if digits == 0 {
        String::new()
    } else {
        let mut s = hex_text(n / 16, digits - 1);
        s.push(digit_char(n % 16));
        s
    }
}

/// The hash under which a question is kept.
pub fn query_hash(query: &str) -> (r: String)
    ensures
        r@ == hash_of(query@),
{
    let t = str_trim(query);
    let bytes = t.as_str().as_bytes();
    let n: usize = bytes.len();
    let mut hash: u64 = 0xcbf2_9ce4_8422_2325;
    let mut i: usize = 0;
    assert(bytes@.take(0) =~= Seq::empty());
    while i < n
        invariant
            i <= n,
            n == bytes@.len(),
            hash == mixed(bytes@.take(i as int)),
        decreases n - i,
    {
        assert(bytes@.take(i + 1).drop_last() =~= bytes@.take(i as int));
        hash = (hash ^ (bytes[i] as u64)).wrapping_mul(0x0100_0000_01b3);
        i = i + 1;
    }
    assert(bytes@.take(i as int) =~= bytes@);
    hex_text(hash, 16)
}

// ---------------------------------------------------------------------------
// What is looked for
// ---------------------------------------------------------------------------

/// What a question is looked for by.
#[derive(Debug, Clone, PartialEq, Eq)]
pub struct RecallSearch {
    /// The expression for the index of words; none where words are not looked for.
    pub expression: Option<String>,
    /// Where no words match, the question itself is looked for in the texts.
    pub whole_text: bool,
    pub recent: bool,
    pub meaning: bool,
    pub limit: i64,
    pub meaning_limit: usize,
    /// The scopes looked in; all where none are given.
    pub scopes: Option<Vec<String>>,
    pub scope: Option<Scope>,
}

/// The mathematical form of a search.
pub struct SearchView {
    pub expression: Option<Seq<char>>,
    pub whole_text: bool,
    pub recent: bool,
    pub meaning: bool,
    pub limit: nat,
    pub meaning_limit: nat,
    pub scopes: Option<Seq<Seq<char>>>,
    pub scope: Option<ScopeView>,
}

impl View for RecallSearch {
    type V = SearchView;

    open spec fn view(&self) -> SearchView {
        SearchView {
            expression: opt_text(self.expression),
            whole_text: self.whole_text,
            recent: self.recent,
            meaning: self.meaning,
            limit: self.limit as nat,
            meaning_limit: self.meaning_limit as nat,
            scopes: opt_texts(self.scopes),
            scope: opt_scope(self.scope),
        }
    }
}

/// The search for a question in a scope, or in all.
pub open spec fn search_for(query: Seq<char>, mode: RecallMode, top_k: nat, scope: Option<ScopeView>) -> SearchView {
    SearchView {
        expression: if mode is Tree {
            None
        } else {
            match_expression(tokens(expanded(query)))
        },
        whole_text: has_cjk(query),
        recent: !(mode is Keyword),
        meaning: mode is Hybrid,
        limit: source_limit(top_k),
        meaning_limit: meaning_limit(top_k),
        scopes: match scope {
            Some(s) => Some(admitted_scopes(s)),
            None => None,
        },
        scope,
    }
}

/// The scope that a question names; none is asked where it names none.
pub open spec fn asked_scope(scope: Option<Seq<char>>) -> Result<Option<ScopeView>, ()> {
    match scope {
        None => Ok(None),
        Some(s) => match parsed_scope(s) {
            Some(v) => Ok(Some(v)),
            None => Err(()),
        },
    }
}

/// Decides what is looked for: nothing where the question is too slight, and an error where it is
/// empty or names no scope.
pub fn start_recall(query: &RecallQuery) -> (r: Result<Option<RecallSearch>, MemoryError>)
    requires
        10 * query.top_k <= i64::MAX,
        4 * query.top_k <= usize::MAX,
    ensures
        ({
            let q = query.query@;
            if blank(q) {
                r matches Err(MemoryError::InvalidQuery(m)) && m@ == "recall query is required"@
            } else if trivial(q, tokens(trimmed(q))) {
                r matches Ok(None)
            } else {
                match asked_scope(opt_text(query.scope)) {
                    Err(_) => r matches Err(MemoryError::InvalidScope(t)) && t@ == trimmed(query.scope->0@),
                    Ok(scope) => r is Ok && r->Ok_0 is Some && r->Ok_0->0@ == search_for(
                        q,
                        query.mode,
                        query.top_k as nat,
                        scope,
                    ),
                }
            }
        }),
{
    let q = query.query.as_str();
    if is_blank(q) {
        return Err(MemoryError::InvalidQuery("recall query is required".to_owned()));
    }
    if is_trivial(q) {
        return Ok(None);
    }
    let mut scope: Option<Scope> = None;
    let mut scopes: Option<Vec<String>> = None;
    if let Some(s) = &query.scope {
        match Scope::parse(s.as_str()) {
            Ok(v) => {
                scopes = Some(scope_texts(&v));
                scope = Some(v);
            },
            Err(e) => {
                return Err(e);
            },
        }
    }
    let (words, recent, meaning) = sources_for_mode(query.mode);
    let expression = if words {
        fts_match_string(q)
    } else {
        None
    };
    let limit: i64 = fetch_limit(query.top_k);
    let found_limit: usize = if query.top_k <= 5 {
        20
    } else {
        query.top_k * 4
    };
    Ok(
        Some(
            RecallSearch {
                expression,
                whole_text: contains_cjk(q),
                recent,
                meaning,
                limit,
                meaning_limit: found_limit,
                scopes,
                scope,
            },
        ),
    )
}

/// Whether the question itself is to be looked for in the texts: its words were looked for and
/// nothing was found.
pub fn falls_back(search: &RecallSearch, hits: &Vec<Candidate>) -> (r: bool)
    ensures
        r == (search.expression is Some && search.whole_text && hits@.len() == 0),
{
    search.expression.is_some() && search.whole_text && hits.len() == 0
}

/// How many memories with an embedding are looked at for their meaning, the newest of them.
pub const MAX_VECTOR_SCAN: i64 = 10_000;

/// What the tables hold for a question.
pub struct Sources {
    /// What its words found, or else what holds the question as it stands.
    pub keyword: Vec<Candidate>,
    pub recent: Vec<Candidate>,
    /// What can be compared by meaning, where that is asked for.
    pub embedded: Option<Vec<(Candidate, Vec<u8>)>>,
}

/// The memories that a search may find and that meet one more condition, the newest first.
pub open spec fn newest_found(rows: Seq<MemoryRowView>, f: FilterView, limit: int) -> Seq<MemoryRowView> {
    selected(rows, ConditionView::Rows(f), RowOrder::Newest, limit)
}

impl Store {
    /// Looks up what a search asks of the tables, once its words were looked for. Meanings are
    /// compared only where there is something to compare them with.
    pub fn look_up(&self, query: &RecallQuery, search: &RecallSearch, keyword: Vec<Candidate>, by_meaning: bool) -> (r: Sources)
        ensures
            candidates_of(r.keyword@) == (if search.expression is Some && search.whole_text && keyword@.len() == 0 {
                as_candidates(
                    newest_found(
                        self@.memories,
                        FilterView {
                            scopes: opt_texts(search.scopes),
                            like: Some(holding(trimmed(query.query@))),
                            ..any_row()
                        },
                        search.limit as int,
                    ),
                    seq!["cjk_fallback"@],
                )
            } else {
                candidates_of(keyword@)
            }),
            candidates_of(r.recent@) == (if search.recent {
                as_candidates(
                    newest_found(
                        self@.memories,
                        FilterView { scopes: opt_texts(search.scopes), ..any_row() },
                        search.limit as int,
                    ),
                    seq!["recent"@],
                )
            } else {
                Seq::empty()
            }),
            match r.embedded {
                Some(e) => search.meaning && by_meaning && embedded_of(e@) == newest_found(
                    self@.memories,
                    FilterView { scopes: opt_texts(search.scopes), embedded: Some(true), ..any_row() },
                    MAX_VECTOR_SCAN as int,
                ).map_values(|r: MemoryRowView| (candidate_of(r, Seq::empty()), r.embedding->0)),
                None => !(search.meaning && by_meaning),
            },
    {
        let scopes: Option<&Vec<String>> = match &search.scopes {
            Some(v) => Some(v),
            None => None,
        };
        let keyword = if falls_back(search, &keyword) {
            self.cjk_fallback_candidates(query.query.as_str(), search.limit, scopes)
        } else {
            keyword
        };
        let recent = if search.recent {
            self.recent_candidates(search.limit, scopes)
        } else {
            let none: Vec<Candidate> = Vec::new();
            assert(candidates_of(none@) =~= Seq::empty());
            none
        };
        let embedded = if search.meaning && by_meaning {
            Some(self.embedded_candidates(MAX_VECTOR_SCAN, scopes))
        } else {
            None
        };
        Sources { keyword, recent, embedded }
    }
}

// ---------------------------------------------------------------------------
// What was found
// ---------------------------------------------------------------------------

/// The candidates of all sources that the scope admits.
pub open spec fn gathered(
    search: SearchView,
    mode: RecallMode,
    keyword: Seq<CandidateView>,
    recent: Seq<CandidateView>,
    found: Option<Seq<CandidateView>>,
) -> Seq<CandidateView> {
    let merged = combined(mode, keyword, recent);
    let all = match found {
        Some(f) => if search.meaning {
            all_joined(merged, f, true)
        } else {
            merged
        },
        None => merged,
    };
    scope_filtered(all, search.scope)
}

/// Brings the candidates of the sources together: by words, by age, and by meaning where that was
/// looked for.
pub fn gather(
    search: &RecallSearch,
    mode: RecallMode,
    keyword: Vec<Candidate>,
    recent: Vec<Candidate>,
    found: Option<Vec<Candidate>>,
) -> (r: Vec<Candidate>)
    ensures
        candidates_of(r@) == gathered(
            search@,
            mode,
            candidates_of(keyword@),
            candidates_of(recent@),
            match found {
                Some(f) => Some(candidates_of(f@)),
                None => None,
            },
        ),
{
    let merged = combine(mode, keyword, recent);
    let all = match found {
        Some(f) => if search.meaning {
            apply_vector_sims(merged, &f)
        } else {
            merged
        },
        None => merged,
    };
    filter_by_scope(&all, &search.scope)
}

/// The mathematical form of where an answer comes from.
pub struct EvidenceView {
    pub id: i64,
    pub scope: Seq<char>,
    pub score: Real,
}

impl View for Evidence {
    type V = EvidenceView;

    open spec fn view(&self) -> EvidenceView {
        EvidenceView { id: self.id, scope: self.scope@, score: self.score }
    }
}

/// The mathematical forms of evidence.
pub open spec fn evidence_of(v: Seq<Evidence>) -> Seq<EvidenceView> {
    v.map_values(|e: Evidence| e@)
}

impl View for RecallHit {
    type V = ScoredView;

    open spec fn view(&self) -> ScoredView {
        ScoredView {
            id: self.id,
            scope: self.scope@,
            kind: self.kind,
            text: self.text@,
            score: self.score,
            explanation: self.explanation@,
        }
    }
}

/// The mathematical forms of hits.
pub open spec fn hits_of(v: Seq<RecallHit>) -> Seq<ScoredView> {
    v.map_values(|h: RecallHit| h@)
}

/// A number brought between zero and one.
pub open spec fn clamped(x: Real) -> Real {
    if rank_of(x) < 0 {
        Real { bits: 0 }
    } else if rank_of(x) > rank_of(Real { bits: 0x3FF0_0000_0000_0000 }) {
        Real { bits: 0x3FF0_0000_0000_0000 }
    } else {
        x
    }
}

/// How much an answer is to be trusted: as relevant as its first memory.
pub open spec fn confidence_in(s: Seq<ScoredView>) -> Real {
    if s.len() == 0 {
        Real { bits: 0 }
    } else {
        clamped(s[0].explanation.relevance)
    }
}

/// What a question is answered.
#[derive(Debug, Clone, PartialEq, Eq)]
pub struct RecallAnswer {
    pub hits: Vec<RecallHit>,
    pub evidence: Vec<Evidence>,
    pub confidence: Real,
    /// The memories whose recall is to be counted.
    pub touched: Vec<i64>,
}

fn clamp(x: Real) -> (r: Real)
    ensures
        r == clamped(x),
{
    let zero = Real { bits: 0 };
    let one = Real { bits: 0x3FF0_0000_0000_0000 };
    if x.less_than(zero) {
        zero
    } else if one.less_than(x) {
        one
    } else {
        x
    }
}

/// Answers a question with the best of the gathered candidates, given the numbers that scoring
/// found for each.
pub fn answer(gathered: &Vec<Candidate>, parts: &Vec<ScoreParts>, now: i64, top_k: usize) -> (r: RecallAnswer)
    requires
        gathered@.len() == parts@.len(),
    ensures
        ({
            let best = ranked(candidates_of(gathered@), parts@, now, top_k as nat);
            &&& hits_of(r.hits@) == best
            &&& evidence_of(r.evidence@) == best.map_values(
                |s: ScoredView| EvidenceView { id: s.id, scope: s.scope, score: s.score },
            )
            &&& r.touched@ == best.map_values(|s: ScoredView| s.id)
            &&& r.confidence == confidence_in(best)
        }),
{
    let scored = rank(gathered, parts, now, top_k);
    let ghost best = scored_of(scored@);
    let confidence = if scored.len() == 0 {
        Real { bits: 0 }
    } else {
        assert(best[0] == scored@[0]@);
        clamp(scored[0].explanation.relevance)
    };
    let mut hits: Vec<RecallHit> = Vec::new();
    let mut evidence: Vec<Evidence> = Vec::new();
    let mut touched: Vec<i64> = Vec::new();
    let mut i: usize = 0;
    while i < scored.len()
        invariant
            i <= scored.len(),
            best == scored_of(scored@),
            hits@.len() == i,
            evidence@.len() == i,
            touched@.len() == i,
            forall|k: int| 0 <= k < i ==> (#[trigger] hits@[k])@ == best[k],
            forall|k: int|
                0 <= k < i ==> (#[trigger] evidence@[k])@ == (EvidenceView {
                    id: best[k].id,
                    scope: best[k].scope,
                    score: best[k].score,
                }),
            forall|k: int| 0 <= k < i ==> #[trigger] touched@[k] == best[k].id,
        decreases scored.len() - i,
    {
        assert(best[i as int] == scored@[i as int]@);
        let s = &scored[i];
        touched.push(s.id);
        evidence.push(Evidence { id: s.id, scope: s.scope.clone(), score: s.score });
        hits.push(hit_from(s));
        i = i + 1;
    }
    assert(hits_of(hits@) =~= best);
    assert(evidence_of(evidence@) =~= best.map_values(
        |s: ScoredView| EvidenceView { id: s.id, scope: s.scope, score: s.score },
    ));
    assert(touched@ =~= best.map_values(|s: ScoredView| s.id));
    RecallAnswer { hits, evidence, confidence, touched }
}

fn hit_from(s: &Scored) -> (r: RecallHit)
    ensures
        r@ == s@,
{
    RecallHit {
        id: s.id,
        scope: s.scope.clone(),
        kind: s.kind,
        text: s.text.clone(),
        score: s.score,
        explanation: RecallExplanation {
            lexical: s.explanation.lexical,
            semantic: s.explanation.semantic,
            relevance: s.explanation.relevance,
            decay: s.explanation.decay,
            importance: s.explanation.importance,
            recall_bonus: s.explanation.recall_bonus,
            age_seconds: s.explanation.age_seconds,
            recall_count: s.explanation.recall_count,
            source_signals: clone_texts(&s.explanation.source_signals),
        },
    }
}

/// What is kept of a question: its hash, never its text.
pub fn telemetry_for(
    query: &RecallQuery,
    hit_count: usize,
    top_relevance: Real,
    skipped: bool,
    latency_ms: u64,
    now: i64,
) -> (r: RecallTelemetryInput)
    ensures
        r.query_hash@ == hash_of(query.query@),
        r.mode == query.mode,
        r.top_k == query.top_k,
        opt_text(r.scope) == opt_text(query.scope),
        r.hit_count == hit_count,
        r.top_relevance == top_relevance,
        r.skipped == skipped,
        r.latency_ms == latency_ms,
        r.created_at == now,
{
    RecallTelemetryInput {
        query_hash: query_hash(query.query.as_str()),
        mode: query.mode,
        top_k: query.top_k,
        scope: clone_opt(&query.scope),
        hit_count,
        top_relevance,
        skipped,
        latency_ms,
        created_at: now,
    }
}

/// What is answered to a question in a scope stems from that scope or from the global one, whatever
/// the sources brought.
pub proof fn answers_stay_in_scope(
    search: SearchView,
    mode: RecallMode,
    keyword: Seq<CandidateView>,
    recent: Seq<CandidateView>,
    found: Option<Seq<CandidateView>>,
    parts: Seq<ScoreParts>,
    now: i64,
    top_k: nat,
    i: int,
)
    requires
        search.scope is Some,
        parts.len() == gathered(search, mode, keyword, recent, found).len(),
        0 <= i < ranked(gathered(search, mode, keyword, recent, found), parts, now, top_k).len(),
    ensures
        ({
            let hit = ranked(gathered(search, mode, keyword, recent, found), parts, now, top_k)[i];
            hit.scope == scope_text(search.scope->0) || hit.scope == "global"@
        }),
{
    let cands = gathered(search, mode, keyword, recent, found);
    ranked_rows_are_candidates(cands, parts, now, top_k, i);
    let k = choose|k: int|
        0 <= k < cands.len() && ranked(cands, parts, now, top_k)[i] == scored_with(#[trigger] cands[k], parts[k], now);
    let merged = combined(mode, keyword, recent);
    let all = match found {
        Some(f) => if search.meaning {
            all_joined(merged, f, true)
        } else {
            merged
        },
        None => merged,
    };
    filtered_lists_stay_inside(all, search.scope->0, k);
}

} // verus!
