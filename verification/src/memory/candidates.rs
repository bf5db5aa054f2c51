//! Combining, filtering and ordering the memories that may answer a question.
use crate::memory::model::{MemoryKind, RecallExplanation, RecallMode};
use crate::memory::scope::{lineage, scope_text, scopes_of, Scope, ScopeView};
use crate::order::{picked, positions, rank_of, sort_order, sorted_order, sorting_is_a_permutation, Key, Real};
use crate::text::{clone_texts, push_text, same, texts};
use vstd::prelude::*;

verus! {

/// A memory that may answer a question.
#[derive(Debug, Clone, PartialEq, Eq)]
pub struct Candidate {
    pub id: i64,
    pub scope: String,
    pub kind: MemoryKind,
    pub text: String,
    pub created_at: i64,
    pub recall_count: i64,
    pub importance: Real,
    /// How well its words match; smaller is better. None where no words were compared.
    pub bm25: Option<Real>,
    /// How close its meaning is; larger is better. None where no meanings were compared.
    pub vector_sim: Option<Real>,
    /// The sources that found it.
    pub source_signals: Vec<String>,
}

/// The mathematical form of a candidate.
pub struct CandidateView {
    pub id: i64,
    pub scope: Seq<char>,
    pub kind: MemoryKind,
    pub text: Seq<char>,
    pub created_at: i64,
    pub recall_count: i64,
    pub importance: Real,
    pub bm25: Option<Real>,
    pub vector_sim: Option<Real>,
    pub source_signals: Seq<Seq<char>>,
}

impl View for Candidate {
    type V = CandidateView;

    open spec fn view(&self) -> CandidateView {
        CandidateView {
            id: self.id,
            scope: self.scope@,
            kind: self.kind,
            text: self.text@,
            created_at: self.created_at,
            recall_count: self.recall_count,
            importance: self.importance,
            bm25: self.bm25,
            vector_sim: self.vector_sim,
            source_signals: texts(self.source_signals@),
        }
    }
}

/// The mathematical forms of a sequence of candidates.
pub open spec fn candidates_of(v: Seq<Candidate>) -> Seq<CandidateView> {
    v.map_values(|c: Candidate| c@)
}

// ---------------------------------------------------------------------------
// Sources
// ---------------------------------------------------------------------------

/// The sources with those of another list that are not among them yet.
pub open spec fn signals_merged(own: Seq<Seq<char>>, more: Seq<Seq<char>>) -> Seq<Seq<char>>
    decreases more.len(),
{
    if more.len() == 0 {
        own
    } else {
        let before = signals_merged(own, more.drop_last());
        if before.contains(more.last()) {
            before
        } else {
            before.push(more.last())
        }
    }
}

fn has_text(v: &Vec<String>, s: &str) -> (r: bool)
    ensures
        r == texts(v@).contains(s@),
{
    let mut i: usize = 0;
    while i < v.len()
        invariant
            i <= v.len(),
            forall|k: int| 0 <= k < i ==> #[trigger] texts(v@)[k] != s@,
        decreases v.len() - i,
    {
        if same(v[i].as_str(), s) {
            assert(texts(v@)[i as int] == s@);
            return true;
        }
        i = i + 1;
    }
    false
}

/// Adds the sources that are not among the existing ones yet.
pub fn merge_source_signals(existing: &mut Vec<String>, incoming: &Vec<String>)
    ensures
        texts(final(existing)@) == signals_merged(texts(old(existing)@), texts(incoming@)),
{
    let ghost own = texts(existing@);
    let ghost more = texts(incoming@);
    let mut i: usize = 0;
    assert(more.take(0) =~= Seq::empty());
    while i < incoming.len()
        invariant
            i <= incoming.len(),
            more == texts(incoming@),
            texts(existing@) == signals_merged(own, more.take(i as int)),
        decreases incoming.len() - i,
    {
        assert(more.take(i + 1).drop_last() =~= more.take(i as int));
        if !has_text(existing, incoming[i].as_str()) {
            push_text(existing, incoming[i].as_str());
        }
        i = i + 1;
    }
    assert(more.take(i as int) =~= more);
}

/// The position of the candidate with the given id, or the length where there is none.
pub open spec fn index_of_id(s: Seq<CandidateView>, id: i64) -> int
    decreases s.len(),
{
    if s.len() == 0 || s[0].id == id {
        0
    } else {
        1 + index_of_id(s.drop_first(), id)
    }
}

proof fn index_of_id_bounds(s: Seq<CandidateView>, id: i64)
    ensures
        0 <= index_of_id(s, id) <= s.len(),
        index_of_id(s, id) < s.len() ==> s[index_of_id(s, id)].id == id,
        forall|k: int| 0 <= k < index_of_id(s, id) ==> (#[trigger] s[k]).id != id,
    decreases s.len(),
{
    if s.len() > 0 && s[0].id != id {
        index_of_id_bounds(s.drop_first(), id);
        assert forall|k: int| 0 <= k < index_of_id(s, id) implies (#[trigger] s[k]).id != id by {
            if k > 0 {
                assert(s[k] == s.drop_first()[k - 1]);
            }
        }
    }
}

fn find_id(v: &Vec<Candidate>, id: i64) -> (r: usize)
    ensures
        r == index_of_id(candidates_of(v@), id),
        r <= v@.len(),
{
    let ghost all = candidates_of(v@);
    let mut i: usize = 0;
    assert(all.skip(0) =~= all);
    while i < v.len() && v[i].id != id
        invariant
            i <= v.len(),
            all == candidates_of(v@),
            index_of_id(all, id) == i + index_of_id(all.skip(i as int), id),
        decreases v.len() - i,
    {
        assert(all.skip(i as int)[0] == v@[i as int]@);
        assert(all.skip(i as int).drop_first() =~= all.skip(i + 1));
        i = i + 1;
    }
    proof {
        if i < v.len() {
            assert(all.skip(i as int)[0] == v@[i as int]@);
        }
    }
    i
}

/// The list with one more candidate. Where the list has a candidate of that id already, that one
/// stays and gets the sources of the new one, and its closeness too where `with_sim` says so.
pub open spec fn joined_in(s: Seq<CandidateView>, c: CandidateView, with_sim: bool) -> Seq<CandidateView> {
    let k = index_of_id(s, c.id);
    if 0 <= k < s.len() {
        s.update(
            k,
            CandidateView {
                source_signals: signals_merged(s[k].source_signals, c.source_signals),
                vector_sim: if with_sim {
                    c.vector_sim
                } else {
                    s[k].vector_sim
                },
                ..s[k]
            },
        )
    } else {
        s.push(c)
    }
}

/// The list with several more candidates, one after another.
pub open spec fn all_joined(s: Seq<CandidateView>, more: Seq<CandidateView>, with_sim: bool) -> Seq<CandidateView>
    decreases more.len(),
{
    if more.len() == 0 {
        s
    } else {
        joined_in(all_joined(s, more.drop_last(), with_sim), more.last(), with_sim)
    }
}

/// A copy of a candidate.
pub fn copy_candidate(c: &Candidate) -> (r: Candidate)
    ensures
        r@ == c@,
{
    Candidate {
        id: c.id,
        scope: c.scope.clone(),
        kind: c.kind,
        text: c.text.clone(),
        created_at: c.created_at,
        recall_count: c.recall_count,
        importance: c.importance,
        bm25: c.bm25,
        vector_sim: c.vector_sim,
        source_signals: clone_texts(&c.source_signals),
    }
}

fn join_in(v: &mut Vec<Candidate>, c: &Candidate, with_sim: bool)
    ensures
        candidates_of(final(v)@) == joined_in(candidates_of(old(v)@), c@, with_sim),
{
    let ghost before = candidates_of(v@);
    let k: usize = find_id(v, c.id);
    if k < v.len() {
        let mut e = copy_candidate(&v[k]);
        merge_source_signals(&mut e.source_signals, &c.source_signals);
        if with_sim {
            e.vector_sim = c.vector_sim;
        }
        v.set(k, e);
        assert(candidates_of(v@) =~= joined_in(before, c@, with_sim));
    } else {
        v.push(copy_candidate(c));
        assert(candidates_of(v@) =~= joined_in(before, c@, with_sim));
    }
}

fn join_all(base: Vec<Candidate>, more: &Vec<Candidate>, with_sim: bool) -> (r: Vec<Candidate>)
    ensures
        candidates_of(r@) == all_joined(candidates_of(base@), candidates_of(more@), with_sim),
{
    let ghost start = candidates_of(base@);
    let ghost all = candidates_of(more@);
    let mut out = base;
    let mut i: usize = 0;
    assert(all.take(0) =~= Seq::empty());
    while i < more.len()
        invariant
            i <= more.len(),
            all == candidates_of(more@),
            candidates_of(out@) == all_joined(start, all.take(i as int), with_sim),
        decreases more.len() - i,
    {
        assert(all.take(i + 1).drop_last() =~= all.take(i as int));
        join_in(&mut out, &more[i], with_sim);
        i = i + 1;
    }
    assert(all.take(i as int) =~= all);
    out
}

/// Merges the candidates found by words and by age; a candidate found by both keeps how well its
/// words match.
pub fn merge_candidates(keyword: Vec<Candidate>, recent: &Vec<Candidate>) -> (r: Vec<Candidate>)
    ensures
        candidates_of(r@) == all_joined(candidates_of(keyword@), candidates_of(recent@), false),
{
    join_all(keyword, recent, false)
}

/// Adds the candidates found by meaning; a candidate that is there already gets its closeness.
pub fn apply_vector_sims(base: Vec<Candidate>, vector: &Vec<Candidate>) -> (r: Vec<Candidate>)
    ensures
        candidates_of(r@) == all_joined(candidates_of(base@), candidates_of(vector@), true),
{
    join_all(base, vector, true)
}

/// No id stands twice in a list.
pub open spec fn ids_distinct(s: Seq<CandidateView>) -> bool {
    forall|i: int, j: int| 0 <= i < j < s.len() ==> (#[trigger] s[i]).id != (#[trigger] s[j]).id
}

/// Merging never brings an id twice into a list, and never loses a candidate or how well its
/// words match.
pub proof fn merging_keeps_ids_distinct(s: Seq<CandidateView>, more: Seq<CandidateView>, with_sim: bool)
    requires
        ids_distinct(s),
    ensures
        ids_distinct(all_joined(s, more, with_sim)),
        all_joined(s, more, with_sim).len() >= s.len(),
        forall|i: int|
            0 <= i < s.len() ==> (#[trigger] all_joined(s, more, with_sim)[i]).id == s[i].id && all_joined(
                s,
                more,
                with_sim,
            )[i].bm25 == s[i].bm25,
    decreases more.len(),
{
    if more.len() > 0 {
        let before = all_joined(s, more.drop_last(), with_sim);
        merging_keeps_ids_distinct(s, more.drop_last(), with_sim);
        let c = more.last();
        index_of_id_bounds(before, c.id);
        let after = joined_in(before, c, with_sim);
        assert forall|i: int, j: int| 0 <= i < j < after.len() implies (#[trigger] after[i]).id != (#[trigger] after[j]).id by {
            if j < before.len() {
                assert(before[i].id != before[j].id);
            } else {
                assert(before[i].id != c.id);
            }
        }
    }
}

// ---------------------------------------------------------------------------
// Scopes
// ---------------------------------------------------------------------------

/// The texts of the scopes that a filter admits.
pub open spec fn admitted_scopes(filter: ScopeView) -> Seq<Seq<char>> {
    lineage(filter).map_values(|s: ScopeView| scope_text(s))
}

/// The candidates whose scope is among the given ones, in order.
pub open spec fn in_scopes(s: Seq<CandidateView>, allowed: Seq<Seq<char>>) -> Seq<CandidateView>
    decreases s.len(),
{
    if s.len() == 0 {
        Seq::empty()
    } else if allowed.contains(s.last().scope) {
        in_scopes(s.drop_last(), allowed).push(s.last())
    } else {
        in_scopes(s.drop_last(), allowed)
    }
}

/// The candidates that a filter admits.
pub open spec fn scope_filtered(s: Seq<CandidateView>, filter: Option<ScopeView>) -> Seq<CandidateView> {
    match filter {
        None => s,
        Some(f) => in_scopes(s, admitted_scopes(f)),
    }
}

/// The mathematical form of an optional scope.
pub open spec fn opt_scope(o: Option<Scope>) -> Option<ScopeView> {
    match o {
        Some(s) => Some(s@),
        None => None,
    }
}

/// The texts of the scopes that a filter admits.
pub fn scope_texts(filter: &Scope) -> (r: Vec<String>)
    ensures
        texts(r@) == admitted_scopes(filter@),
{
    let scopes = filter.ancestry();
    let ghost all = admitted_scopes(filter@);
    let mut r: Vec<String> = Vec::new();
    let mut i: usize = 0;
    assert(texts(r@) =~= all.take(0));
    while i < scopes.len()
        invariant
            i <= scopes.len(),
            scopes_of(scopes@) == lineage(filter@),
            all == admitted_scopes(filter@),
            all.len() == scopes@.len(),
            texts(r@) == all.take(i as int),
        decreases scopes.len() - i,
    {
        let t = scopes[i].text();
        assert(lineage(filter@)[i as int] == scopes@[i as int]@);
        push_text(&mut r, t.as_str());
        i = i + 1;
        assert(texts(r@) =~= all.take(i as int));
    }
    assert(all.take(i as int) =~= all);
    r
}

/// Keeps only the candidates whose scope the filter admits.
pub fn filter_by_scope(candidates: &Vec<Candidate>, filter: &Option<Scope>) -> (r: Vec<Candidate>)
    ensures
        candidates_of(r@) == scope_filtered(candidates_of(candidates@), opt_scope(*filter)),
{
    let ghost all = candidates_of(candidates@);
    let mut r: Vec<Candidate> = Vec::new();
    let mut i: usize = 0;
    match filter {
        None => {
            assert(candidates_of(r@) =~= all.take(0));
            while i < candidates.len()
                invariant
                    i <= candidates.len(),
                    all == candidates_of(candidates@),
                    candidates_of(r@) == all.take(i as int),
                decreases candidates.len() - i,
            {
                let ghost before = candidates_of(r@);
                r.push(copy_candidate(&candidates[i]));
                assert(candidates_of(r@) =~= before.push(all[i as int]));
                i = i + 1;
                assert(candidates_of(r@) =~= all.take(i as int));
            }
            assert(all.take(i as int) =~= all);
        },
        Some(scope) => {
            let allowed = scope_texts(scope);
            assert(candidates_of(r@) =~= in_scopes(all.take(0), texts(allowed@)));
            while i < candidates.len()
                invariant
                    i <= candidates.len(),
                    all == candidates_of(candidates@),
                    candidates_of(r@) == in_scopes(all.take(i as int), texts(allowed@)),
                decreases candidates.len() - i,
            {
                let ghost before = candidates_of(r@);
                assert(all.take(i + 1).drop_last() =~= all.take(i as int));
                if has_text(&allowed, candidates[i].scope.as_str()) {
                    r.push(copy_candidate(&candidates[i]));
                    assert(candidates_of(r@) =~= before.push(all[i as int]));
                }
                i = i + 1;
            }
            assert(all.take(i as int) =~= all);
        },
    }
    r
}

/// A filtered list holds nothing of another scope.
pub proof fn filtered_lists_stay_inside(s: Seq<CandidateView>, filter: ScopeView, i: int)
    requires
        0 <= i < scope_filtered(s, Some(filter)).len(),
    ensures
        scope_filtered(s, Some(filter))[i].scope == scope_text(filter) || scope_filtered(
            s,
            Some(filter),
        )[i].scope == "global"@,
    decreases s.len(),
{
    let allowed = admitted_scopes(filter);
    let d = s.drop_last();
    if allowed.contains(s.last().scope) && i == in_scopes(d, allowed).len() {
        let k = allowed.index_of(s.last().scope);
        assert(allowed[k] == s.last().scope);
    } else {
        filtered_lists_stay_inside(d, filter, i);
    }
}

// ---------------------------------------------------------------------------
// Order
// ---------------------------------------------------------------------------

/// The key by which larger numbers come first; what has no number comes last.
pub open spec fn descending_key(x: Option<Real>) -> Key {
    match x {
        Some(r) => ((-rank_of(r)) as i128, 0i128),
        None => (0x8000_0000_0000_0000i128, 0i128),
    }
}

/// The first positions of a sequence.
pub open spec fn first_of(order: Seq<int>, n: nat) -> Seq<int> {
    order.take(
        if order.len() <= n {
            order.len() as int
        } else {
            n as int
        },
    )
}

fn key_of(x: Option<Real>) -> (r: Key)
    ensures
        r == descending_key(x),
{
    match x {
        Some(v) => (-v.rank(), 0),
        None => (0x8000_0000_0000_0000, 0),
    }
}

/// A candidate with how close its meaning is to the question, as the meaning source gives it.
pub open spec fn with_sim(c: CandidateView, sim: Real) -> CandidateView {
    CandidateView {
        vector_sim: Some(sim),
        source_signals: c.source_signals.push("vector"@),
        ..c
    }
}

/// The candidates found by meaning: the closest first, at most so many.
pub open spec fn closest(cands: Seq<CandidateView>, sims: Seq<Real>, limit: nat) -> Seq<CandidateView> {
    let all = Seq::new(cands.len(), |i: int| with_sim(cands[i], sims[i]));
    let keys = all.map_values(|c: CandidateView| descending_key(c.vector_sim));
    picked(all, first_of(sorted_order(keys, keys.len() as int), limit))
}

fn take_picked(all: &Vec<Candidate>, order: &Vec<usize>, limit: usize) -> (r: Vec<Candidate>)
    requires
        forall|j: int| 0 <= j < order@.len() ==> #[trigger] order@[j] < all@.len(),
    ensures
        candidates_of(r@) == picked(
            candidates_of(all@),
            first_of(positions(order@), limit as nat),
        ),
{
    let ghost views = candidates_of(all@);
    let ghost goal = picked(views, first_of(positions(order@), limit as nat));
    let mut r: Vec<Candidate> = Vec::new();
    let mut i: usize = 0;
    assert(candidates_of(r@) =~= goal.take(0));
    while i < order.len() && i < limit
        invariant
            i <= order.len(),
            i <= limit,
            views == candidates_of(all@),
            goal == picked(views, first_of(positions(order@), limit as nat)),
            forall|j: int| 0 <= j < order@.len() ==> #[trigger] order@[j] < all@.len(),
            candidates_of(r@) == goal.take(i as int),
        decreases order.len() - i,
    {
        let ghost before = candidates_of(r@);
        let at: usize = order[i];
        r.push(copy_candidate(&all[at]));
        assert(candidates_of(r@) =~= before.push(views[at as int]));
        assert(goal[i as int] == views[at as int]);
        i = i + 1;
        assert(candidates_of(r@) =~= goal.take(i as int));
    }
    assert(goal.take(i as int) =~= goal);
    r
}

/// Builds the candidates found by meaning from the embedded memories and how close each is to the
/// question.
pub fn build_vector_candidates(embedded: &Vec<Candidate>, sims: &Vec<Real>, limit: usize) -> (r: Vec<
    Candidate,
>)
    requires
        embedded@.len() == sims@.len(),
    ensures
        candidates_of(r@) == closest(candidates_of(embedded@), sims@, limit as nat),
{
    let ghost cands = candidates_of(embedded@);
    let ghost all = Seq::new(cands.len(), |i: int| with_sim(cands[i], sims@[i]));
    let ghost keyseq = all.map_values(|c: CandidateView| descending_key(c.vector_sim));
    let mut v: Vec<Candidate> = Vec::new();
    let mut keys: Vec<Key> = Vec::new();
    let mut i: usize = 0;
    while i < embedded.len()
        invariant
            i <= embedded.len(),
            embedded@.len() == sims@.len(),
            cands == candidates_of(embedded@),
            all == Seq::new(cands.len(), |i: int| with_sim(cands[i], sims@[i])),
            v@.len() == i,
            keys@.len() == i,
            forall|k: int| 0 <= k < i ==> (#[trigger] v@[k])@ == all[k],
            forall|k: int| 0 <= k < i ==> #[trigger] keys@[k] == descending_key(all[k].vector_sim),
        decreases embedded.len() - i,
    {
        let mut c = copy_candidate(&embedded[i]);
        c.vector_sim = Some(sims[i]);
        push_text(&mut c.source_signals, "vector");
        keys.push(key_of(c.vector_sim));
        v.push(c);
        i = i + 1;
    }
    assert(candidates_of(v@) =~= all);
    assert(keys@ =~= keyseq);
    let order = sort_order(&keys);
    take_picked(&v, &order, limit)
}

/// A memory with its score.
#[derive(Debug, Clone, PartialEq, Eq)]
pub struct Scored {
    pub id: i64,
    pub scope: String,
    pub kind: MemoryKind,
    pub text: String,
    pub score: Real,
    pub explanation: RecallExplanation,
}

/// The mathematical form of a score's explanation.
pub struct ExplanationView {
    pub lexical: Real,
    pub semantic: Real,
    pub relevance: Real,
    pub decay: Real,
    pub importance: Real,
    pub recall_bonus: Real,
    pub age_seconds: i64,
    pub recall_count: i64,
    pub source_signals: Seq<Seq<char>>,
}

impl View for RecallExplanation {
    type V = ExplanationView;

    open spec fn view(&self) -> ExplanationView {
        ExplanationView {
            lexical: self.lexical,
            semantic: self.semantic,
            relevance: self.relevance,
            decay: self.decay,
            importance: self.importance,
            recall_bonus: self.recall_bonus,
            age_seconds: self.age_seconds,
            recall_count: self.recall_count,
            source_signals: texts(self.source_signals@),
        }
    }
}

/// The mathematical form of a scored memory.
pub struct ScoredView {
    pub id: i64,
    pub scope: Seq<char>,
    pub kind: MemoryKind,
    pub text: Seq<char>,
    pub score: Real,
    pub explanation: ExplanationView,
}

impl View for Scored {
    type V = ScoredView;

    open spec fn view(&self) -> ScoredView {
        ScoredView {
            id: self.id,
            scope: self.scope@,
            kind: self.kind,
            text: self.text@,
            score: self.score,
            explanation: self.explanation@,
        }
    }
}

/// The mathematical forms of a sequence of scored memories.
pub open spec fn scored_of(v: Seq<Scored>) -> Seq<ScoredView> {
    v.map_values(|s: Scored| s@)
}

/// The numbers that scoring gives to a candidate.
#[derive(Debug, Clone, Copy, PartialEq, Eq, Structural)]
pub struct ScoreParts {
    pub score: Real,
    pub lexical: Real,
    pub semantic: Real,
    pub relevance: Real,
    pub decay: Real,
    pub recall_bonus: Real,
}

/// The seconds since a memory was made; none where it was made later than now.
pub open spec fn age_of(created_at: i64, now: i64) -> int {
    if now >= created_at {
        now - created_at
    } else {
        0
    }
}

/// The seconds since a memory was made. An age that fits no machine integer counts as the largest
/// one.
pub fn age_seconds(created_at: i64, now: i64) -> (r: i64)
    ensures
        r == (if age_of(created_at, now) <= i64::MAX {
            age_of(created_at, now)
        } else {
            i64::MAX as int
        }),
{
    if now < created_at {
        return 0;
    }
    let d: i128 = now as i128 - created_at as i128;
    if d <= i64::MAX as i128 {
        d as i64
    } else {
        i64::MAX
    }
}

/// A candidate with the numbers that scoring gave it.
pub open spec fn scored_with(c: CandidateView, p: ScoreParts, now: i64) -> ScoredView {
    ScoredView {
        id: c.id,
        scope: c.scope,
        kind: c.kind,
        text: c.text,
        score: p.score,
        explanation: ExplanationView {
            lexical: p.lexical,
            semantic: p.semantic,
            relevance: p.relevance,
            decay: p.decay,
            importance: c.importance,
            recall_bonus: p.recall_bonus,
            age_seconds: (if age_of(c.created_at, now) <= i64::MAX {
                age_of(c.created_at, now)
            } else {
                i64::MAX as int
            }) as i64,
            recall_count: c.recall_count,
            source_signals: c.source_signals,
        },
    }
}

/// The best memories first, at most so many; equal scores keep their order.
pub open spec fn ranked(cands: Seq<CandidateView>, parts: Seq<ScoreParts>, now: i64, top_k: nat) -> Seq<
    ScoredView,
> {
    let all = Seq::new(cands.len(), |i: int| scored_with(cands[i], parts[i], now));
    let keys = all.map_values(|s: ScoredView| descending_key(Some(s.score)));
    picked(all, first_of(sorted_order(keys, keys.len() as int), top_k))
}

fn make_scored(c: &Candidate, p: ScoreParts, now: i64) -> (r: Scored)
    ensures
        r@ == scored_with(c@, p, now),
{
    Scored {
        id: c.id,
        scope: c.scope.clone(),
        kind: c.kind,
        text: c.text.clone(),
        score: p.score,
        explanation: RecallExplanation {
            lexical: p.lexical,
            semantic: p.semantic,
            relevance: p.relevance,
            decay: p.decay,
            importance: c.importance,
            recall_bonus: p.recall_bonus,
            age_seconds: age_seconds(c.created_at, now),
            recall_count: c.recall_count,
            source_signals: clone_texts(&c.source_signals),
        },
    }
}

/// Orders the candidates by the scores that scoring gave them, best first, and keeps the first
/// `top_k`.
pub fn rank(candidates: &Vec<Candidate>, parts: &Vec<ScoreParts>, now: i64, top_k: usize) -> (r: Vec<
    Scored,
>)
    requires
        candidates@.len() == parts@.len(),
    ensures
        scored_of(r@) == ranked(candidates_of(candidates@), parts@, now, top_k as nat),
{
    let ghost cands = candidates_of(candidates@);
    let ghost all = Seq::new(cands.len(), |i: int| scored_with(cands[i], parts@[i], now));
    let ghost keyseq = all.map_values(|s: ScoredView| descending_key(Some(s.score)));
    let mut keys: Vec<Key> = Vec::new();
    let mut i: usize = 0;
    while i < candidates.len()
        invariant
            i <= candidates.len(),
            candidates@.len() == parts@.len(),
            keys@.len() == i,
            forall|k: int| 0 <= k < i ==> #[trigger] keys@[k] == descending_key(Some(parts@[k].score)),
        decreases candidates.len() - i,
    {
        keys.push(key_of(Some(parts[i].score)));
        i = i + 1;
    }
    assert(keys@ =~= keyseq);
    let order = sort_order(&keys);
    let ghost goal = picked(all, first_of(positions(order@), top_k as nat));
    let mut r: Vec<Scored> = Vec::new();
    let mut j: usize = 0;
    assert(scored_of(r@) =~= goal.take(0));
    while j < order.len() && j < top_k
        invariant
            j <= order.len(),
            j <= top_k,
            candidates@.len() == parts@.len(),
            cands == candidates_of(candidates@),
            all == Seq::new(cands.len(), |i: int| scored_with(cands[i], parts@[i], now)),
            goal == picked(all, first_of(positions(order@), top_k as nat)),
            forall|k: int| 0 <= k < order@.len() ==> #[trigger] order@[k] < candidates@.len(),
            scored_of(r@) == goal.take(j as int),
        decreases order.len() - j,
    {
        let ghost before = scored_of(r@);
        let at: usize = order[j];
        let s = make_scored(&candidates[at], parts[at], now);
        r.push(s);
        assert(scored_of(r@) =~= before.push(s@));
        assert(goal[j as int] == all[at as int]);
        j = j + 1;
        assert(scored_of(r@) =~= goal.take(j as int));
    }
    assert(goal.take(j as int) =~= goal);
    r
}

/// Every memory of a ranking is one of the candidates, with its own score.
pub proof fn ranked_rows_are_candidates(
    cands: Seq<CandidateView>,
    parts: Seq<ScoreParts>,
    now: i64,
    top_k: nat,
    i: int,
)
    requires
        cands.len() == parts.len(),
        0 <= i < ranked(cands, parts, now, top_k).len(),
    ensures
        exists|k: int|
            0 <= k < cands.len() && ranked(cands, parts, now, top_k)[i] == scored_with(#[trigger] cands[k], parts[k], now),
{
    let all = Seq::new(cands.len(), |i: int| scored_with(cands[i], parts[i], now));
    let keys = all.map_values(|s: ScoredView| descending_key(Some(s.score)));
    sorting_is_a_permutation(keys, keys.len() as int);
    let order = sorted_order(keys, keys.len() as int);
    assert(order.contains(order[i]));
    let k = order[i];
    assert(ranked(cands, parts, now, top_k)[i] == scored_with(cands[k], parts[k], now));
}

/// A ranking has at most `top_k` memories, and no memory stands behind one with a smaller score.
pub proof fn rankings_are_short_and_ordered(
    cands: Seq<CandidateView>,
    parts: Seq<ScoreParts>,
    now: i64,
    top_k: nat,
)
    requires
        cands.len() == parts.len(),
    ensures
        ranked(cands, parts, now, top_k).len() <= top_k,
        forall|a: int, b: int|
            0 <= a < b < ranked(cands, parts, now, top_k).len() ==> rank_of(
                (#[trigger] ranked(cands, parts, now, top_k)[a]).score,
            ) >= rank_of((#[trigger] ranked(cands, parts, now, top_k)[b]).score),
{
    let all = Seq::new(cands.len(), |i: int| scored_with(cands[i], parts[i], now));
    let keys = all.map_values(|s: ScoredView| descending_key(Some(s.score)));
    sorting_is_a_permutation(keys, keys.len() as int);
    let order = sorted_order(keys, keys.len() as int);
    let r = ranked(cands, parts, now, top_k);
    assert forall|a: int, b: int| 0 <= a < b < r.len() implies rank_of((#[trigger] r[a]).score) >= rank_of(
        (#[trigger] r[b]).score,
    ) by {
        assert(order.contains(order[a]));
        assert(order.contains(order[b]));
        assert(r[a] == all[order[a]]);
        assert(r[b] == all[order[b]]);
        assert(!crate::order::key_before(keys[order[b]], keys[order[a]]));
        rank_bounds(r[a].score);
        rank_bounds(r[b].score);
    }
}

proof fn rank_bounds(x: Real)
    ensures
        -0x8000_0000_0000_0000 < rank_of(x) < 0x8000_0000_0000_0000,
{
}

/// The smallest and the largest of the numbers that are there, by which scores are scaled.
pub open spec fn extremes_of(v: Seq<Option<Real>>) -> Option<(Real, Real)>
    decreases v.len(),
{
    if v.len() == 0 {
        None
    } else {
        let before = extremes_of(v.drop_last());
        match v.last() {
            None => before,
            Some(x) => match before {
                None => Some((x, x)),
                Some(p) => Some(
                    (
                        if rank_of(x) < rank_of(p.0) {
                            x
                        } else {
                            p.0
                        },
                        if rank_of(p.1) < rank_of(x) {
                            x
                        } else {
                            p.1
                        },
                    ),
                ),
            },
        }
    }
}

/// The smallest and the largest of the numbers that are there.
pub fn extremes(v: &Vec<Option<Real>>) -> (r: Option<(Real, Real)>)
    ensures
        r == extremes_of(v@),
{
    let mut found: Option<(Real, Real)> = None;
    let mut i: usize = 0;
    while i < v.len()
        invariant
            i <= v.len(),
            found == extremes_of(v@.take(i as int)),
        decreases v.len() - i,
    {
        assert(v@.take(i + 1).drop_last() =~= v@.take(i as int));
        if let Some(x) = v[i] {
            found = match found {
                None => Some((x, x)),
                Some((lo, hi)) => Some(
                    (
                        if x.less_than(lo) {
                            x
                        } else {
                            lo
                        },
                        if hi.less_than(x) {
                            x
                        } else {
                            hi
                        },
                    ),
                ),
            };
        }
        i = i + 1;
    }
    assert(v@.take(i as int) =~= v@);
    found
}

// ---------------------------------------------------------------------------
// Sources of a mode
// ---------------------------------------------------------------------------

/// Which sources a mode combines: words, age, meaning.
pub fn sources_for_mode(mode: RecallMode) -> (r: (bool, bool, bool))
    ensures
        r == (match mode {
            RecallMode::Keyword => (true, false, false),
            RecallMode::Tree => (false, true, false),
            RecallMode::Hybrid => (true, true, true),
        }),
{
    match mode {
        RecallMode::Keyword => (true, false, false),
        RecallMode::Tree => (false, true, false),
        RecallMode::Hybrid => (true, true, true),
    }
}

/// What a mode makes of the candidates found by words and by age.
pub open spec fn combined(
    mode: RecallMode,
    keyword: Seq<CandidateView>,
    recent: Seq<CandidateView>,
) -> Seq<CandidateView> {
    match mode {
        RecallMode::Keyword => keyword,
        RecallMode::Tree => recent,
        RecallMode::Hybrid => all_joined(keyword, recent, false),
    }
}

/// Combines the candidates found by words and by age.
pub fn combine(mode: RecallMode, keyword: Vec<Candidate>, recent: Vec<Candidate>) -> (r: Vec<Candidate>)
    ensures
        candidates_of(r@) == combined(mode, candidates_of(keyword@), candidates_of(recent@)),
{
    match mode {
        RecallMode::Keyword => keyword,
        RecallMode::Tree => recent,
        RecallMode::Hybrid => merge_candidates(keyword, &recent),
    }
}

} // verus!
