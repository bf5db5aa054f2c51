//! Which rows of the memory are asked for, and in which order.
use crate::memory::candidates::{candidates_of, first_of, Candidate, CandidateView};
use crate::memory::model::{
    folds_of, records_of, ConsolidationRow, ConsolidationRowView, MemoryKind, MemoryRecord, MemoryRecordView,
    MemoryRecordsPage,
};
use crate::memory::store::{MemoryRow, MemoryRowView, Store};
use crate::order::{
    key_before, picked, positions, rank_of, sort_order, sorted_order, sorting_is_a_permutation, Key, Real,
};
use crate::text::{
    ascii_lower, chars_of, clone_opt, clone_texts, lower_char, opt_str_view, opt_text, push_text, same, str_trim, texts, trimmed,
};
use vstd::prelude::*;

verus! {

// ---------------------------------------------------------------------------
// Patterns
// ---------------------------------------------------------------------------

/// A text follows a pattern in which `%` stands for any characters, `_` for one character, and
/// every other character for itself, whatever its case where it is an ASCII letter.
pub open spec fn follows(pattern: Seq<char>, text: Seq<char>) -> bool
    decreases pattern.len(), text.len(),
{
    if pattern.len() == 0 {
        text.len() == 0
    } else if pattern[0] == '%' {
        follows(pattern.drop_first(), text) || (text.len() > 0 && follows(pattern, text.drop_first()))
    } else {
        text.len() > 0 && (pattern[0] == '_' || ascii_lower(pattern[0]) == ascii_lower(text[0])) && follows(
            pattern.drop_first(),
            text.drop_first(),
        )
    }
}

/// The pattern of the texts that hold another one.
pub open spec fn holding(text: Seq<char>) -> Seq<char> {
    "%"@ + text + "%"@
}

/// Which ends of a text follow a pattern: those that start inside it, and the empty one.
struct Ends {
    inner: Vec<bool>,
    empty: bool,
}

impl Ends {
    spec fn wf(self, pattern: Seq<char>, text: Seq<char>) -> bool {
        &&& self.inner@.len() == text.len()
        &&& self.empty == follows(pattern, Seq::empty())
        &&& forall|j: int| 0 <= j < text.len() ==> #[trigger] self.inner@[j] == follows(pattern, text.skip(j))
    }

    fn at(&self, j: usize, pattern: Ghost<Seq<char>>, text: &Vec<char>) -> (r: bool)
        requires
            self.wf(pattern@, text@),
            j <= text@.len(),
        ensures
            r == follows(pattern@, text@.skip(j as int)),
    {
        if j < text.len() {
            self.inner[j]
        } else {
            assert(text@.skip(j as int) =~= Seq::empty());
            self.empty
        }
    }
}

fn ends_before(pattern: &Vec<char>, at: usize, text: &Vec<char>, below: &Ends) -> (r: Ends)
    requires
        at < pattern@.len(),
        below.wf(pattern@.skip(at + 1), text@),
    ensures
        r.wf(pattern@.skip(at as int), text@),
{
    let n: usize = text.len();
    let ghost p = pattern@.skip(at as int);
    let ghost q = pattern@.skip(at + 1);
    assert(p.drop_first() =~= q);
    assert(p[0] == pattern@[at as int]);
    let any = pattern[at] == '%';
    let mut inner: Vec<bool> = Vec::new();
    let mut k: usize = 0;
    while k < n
        invariant
            k <= n,
            inner@.len() == k,
        decreases n - k,
    {
        inner.push(false);
        k = k + 1;
    }
    let mut r = Ends { inner, empty: any && below.empty };
    let mut j: usize = n;
    while j > 0
        invariant
            n == text@.len(),
            j <= n,
            at < pattern@.len(),
            p == pattern@.skip(at as int),
            q == pattern@.skip(at + 1),
            p.drop_first() == q,
            p.len() > 0,
            p[0] == pattern@[at as int],
            any == (p[0] == '%'),
            below.wf(q, text@),
            r.inner@.len() == n,
            r.empty == follows(p, Seq::empty()),
            forall|i: int| j <= i < n ==> #[trigger] r.inner@[i] == follows(p, text@.skip(i)),
        decreases j,
    {
        j = j - 1;
        let ghost t = text@.skip(j as int);
        assert(t.drop_first() =~= text@.skip(j + 1));
        assert(t[0] == text@[j as int]);
        let v = if any {
            let later = if j + 1 < n {
                r.inner[j + 1]
            } else {
                assert(text@.skip(j + 1) =~= Seq::empty());
                r.empty
            };
            below.at(j, Ghost(q), text) || later
        } else {
            (pattern[at] == '_' || lower_char(pattern[at]) == lower_char(text[j])) && below.at(
                j + 1,
                Ghost(q),
                text,
            )
        };
        assert(v == follows(p, t));
        r.inner.set(j, v);
    }
    r
}

/// Whether a text follows a pattern.
pub fn is_following(pattern: &str, text: &str) -> (r: bool)
    ensures
        r == follows(pattern@, text@),
{
    let p = chars_of(pattern);
    let t = chars_of(text);
    let n: usize = t.len();
    let mut inner: Vec<bool> = Vec::new();
    let mut k: usize = 0;
    while k < n
        invariant
            n == t@.len(),
            k <= n,
            inner@.len() == k,
            forall|j: int| 0 <= j < k ==> #[trigger] inner@[j] == false,
        decreases n - k,
    {
        inner.push(false);
        k = k + 1;
    }
    let mut ends = Ends { inner, empty: true };
    let mut at: usize = p.len();
    assert(ends.wf(p@.skip(at as int), t@)) by {
        assert forall|j: int| 0 <= j < n implies #[trigger] ends.inner@[j] == follows(
            p@.skip(at as int),
            t@.skip(j),
        ) by {
            assert(t@.skip(j).len() == n - j);
        }
    }
    while at > 0
        invariant
            at <= p@.len(),
            ends.wf(p@.skip(at as int), t@),
        decreases at,
    {
        at = at - 1;
        ends = ends_before(&p, at, &t, &ends);
    }
    assert(p@.skip(0) =~= p@);
    assert(t@.skip(0) =~= t@);
    ends.at(0, Ghost(p@), &t)
}

// ---------------------------------------------------------------------------
// Conditions
// ---------------------------------------------------------------------------

/// A memory that can be folded into a summary, and forgotten: an event or a note.
pub open spec fn foldable(r: MemoryRowView) -> bool {
    (r.kind is Event || r.kind is Note) && r.word is None
}

/// Which memories are asked for; what is left open admits every memory.
pub struct RowFilter {
    /// One of these scopes; an empty list admits every scope.
    pub scopes: Option<Vec<String>>,
    pub kind: Option<MemoryKind>,
    /// Only what has a category of this word, which is not a known one.
    pub word: Option<String>,
    /// Only what can be folded.
    pub foldable: bool,
    pub folded: Option<bool>,
    pub embedded: Option<bool>,
    /// Made at this moment or later.
    pub since: Option<i64>,
    /// Made before this moment.
    pub before: Option<i64>,
    /// The text follows this pattern.
    pub like: Option<String>,
}

/// The texts of an optional vector.
pub open spec fn opt_texts(o: Option<Vec<String>>) -> Option<Seq<Seq<char>>> {
    match o {
        Some(v) => Some(texts(v@)),
        None => None,
    }
}

/// The mathematical form of a filter.
pub struct FilterView {
    pub scopes: Option<Seq<Seq<char>>>,
    pub kind: Option<MemoryKind>,
    pub word: Option<Seq<char>>,
    pub foldable: bool,
    pub folded: Option<bool>,
    pub embedded: Option<bool>,
    pub since: Option<i64>,
    pub before: Option<i64>,
    pub like: Option<Seq<char>>,
}

impl View for RowFilter {
    type V = FilterView;

    open spec fn view(&self) -> FilterView {
        FilterView {
            scopes: opt_texts(self.scopes),
            kind: self.kind,
            word: opt_text(self.word),
            foldable: self.foldable,
            folded: self.folded,
            embedded: self.embedded,
            since: self.since,
            before: self.before,
            like: opt_text(self.like),
        }
    }
}

/// The filter that admits every memory.
pub open spec fn any_row() -> FilterView {
    FilterView {
        scopes: None,
        kind: None,
        word: None,
        foldable: false,
        folded: None,
        embedded: None,
        since: None,
        before: None,
        like: None,
    }
}

/// The filter that admits the memories of a scope, or all where none is given.
pub open spec fn any_of(scope: Option<Seq<char>>) -> FilterView {
    FilterView {
        scopes: match scope {
            Some(s) => Some(seq![s]),
            None => None,
        },
        ..any_row()
    }
}

/// A scope is one of those asked for.
pub open spec fn scope_asked(scopes: Option<Seq<Seq<char>>>, scope: Seq<char>) -> bool {
    match scopes {
        Some(s) => s.len() == 0 || s.contains(scope),
        None => true,
    }
}

impl FilterView {
    /// The filter admits a memory.
    pub open spec fn admits(self, r: MemoryRowView) -> bool {
        &&& scope_asked(self.scopes, r.scope)
        &&& self.kind is None || (self.kind == Some(r.kind) && r.word is None)
        &&& self.word is None || self.word == r.word
        &&& self.foldable ==> foldable(r)
        &&& self.folded is None || self.folded == Some(r.consolidated_into is Some)
        &&& self.embedded is None || self.embedded == Some(r.embedding is Some)
        &&& self.since is None || r.created_at >= self.since->0
        &&& self.before is None || r.created_at < self.before->0
        &&& self.like is None || follows(self.like->0, r.text)
    }
}

/// A condition on memories.
pub enum Condition {
    /// One of these ids.
    Ids(Vec<i64>),
    Rows(RowFilter),
    /// What may be forgotten: folded into a summary, or old, never recalled and unimportant. Only
    /// what can be folded is ever forgotten.
    Prunable { scope: Option<String>, before: i64, floor: Real },
}

/// The mathematical form of a condition.
pub enum ConditionView {
    Ids(Seq<i64>),
    Rows(FilterView),
    Prunable { scope: Option<Seq<char>>, before: i64, floor: Real },
}

impl View for Condition {
    type V = ConditionView;

    open spec fn view(&self) -> ConditionView {
        match self {
            Condition::Ids(ids) => ConditionView::Ids(ids@),
            Condition::Rows(f) => ConditionView::Rows(f@),
            Condition::Prunable { scope, before, floor } => ConditionView::Prunable {
                scope: opt_text(*scope),
                before: *before,
                floor: *floor,
            },
        }
    }
}

/// A memory that may be forgotten.
pub open spec fn prunable(r: MemoryRowView, scope: Option<Seq<char>>, before: i64, floor: Real) -> bool {
    &&& foldable(r)
    &&& r.consolidated_into is Some || (r.created_at < before && r.recall_count == 0 && rank_of(r.importance)
        < rank_of(floor))
    &&& scope is None || scope == Some(r.scope)
}

impl ConditionView {
    /// A memory meets the condition.
    pub open spec fn met(self, r: MemoryRowView) -> bool {
        match self {
            ConditionView::Ids(ids) => ids.contains(r.id),
            ConditionView::Rows(f) => f.admits(r),
            ConditionView::Prunable { scope, before, floor } => prunable(r, scope, before, floor),
        }
    }
}

/// The memories that meet a condition, in order.
pub open spec fn met_rows(rows: Seq<MemoryRowView>, c: ConditionView) -> Seq<MemoryRowView>
    decreases rows.len(),
{
    if rows.len() == 0 {
        Seq::empty()
    } else if c.met(rows.last()) {
        met_rows(rows.drop_last(), c).push(rows.last())
    } else {
        met_rows(rows.drop_last(), c)
    }
}

/// The memories that do not meet a condition, in order.
pub open spec fn unmet_rows(rows: Seq<MemoryRowView>, c: ConditionView) -> Seq<MemoryRowView>
    decreases rows.len(),
{
    if rows.len() == 0 {
        Seq::empty()
    } else if c.met(rows.last()) {
        unmet_rows(rows.drop_last(), c)
    } else {
        unmet_rows(rows.drop_last(), c).push(rows.last())
    }
}

/// The memories that meet a condition are those of the table that do, each as often as it stands
/// there, and with the others they make up the table.
pub proof fn conditions_split_the_table(rows: Seq<MemoryRowView>, c: ConditionView)
    ensures
        met_rows(rows, c).len() + unmet_rows(rows, c).len() == rows.len(),
        met_rows(rows, c).to_multiset().add(unmet_rows(rows, c).to_multiset()) =~= rows.to_multiset(),
        forall|i: int| 0 <= i < met_rows(rows, c).len() ==> c.met(#[trigger] met_rows(rows, c)[i]),
        forall|i: int| 0 <= i < unmet_rows(rows, c).len() ==> !c.met(#[trigger] unmet_rows(rows, c)[i]),
    decreases rows.len(),
{
    broadcast use vstd::seq_lib::group_to_multiset_ensures;

    if rows.len() > 0 {
        let d = rows.drop_last();
        conditions_split_the_table(d, c);
        assert(rows =~= d.push(rows.last()));
    }
}

/// The orders in which memories are asked for.
#[derive(Debug, Clone, Copy, PartialEq, Eq, Structural)]
pub enum RowOrder {
    /// As they stand in the table.
    Stored,
    Newest,
    /// The newest first, and of those made at once the last stored.
    NewestRow,
    Oldest,
}

/// The key by which an order sorts a memory.
pub open spec fn row_key(order: RowOrder, r: MemoryRowView) -> Key {
    match order {
        RowOrder::Stored => (0, 0),
        RowOrder::Newest => (-(r.created_at as i128) as i128, 0),
        RowOrder::NewestRow => (-(r.created_at as i128) as i128, -(r.id as i128) as i128),
        RowOrder::Oldest => (r.created_at as i128, r.id as i128),
    }
}

/// The keys of memories.
pub open spec fn row_keys(order: RowOrder, rows: Seq<MemoryRowView>) -> Seq<Key> {
    rows.map_values(|r: MemoryRowView| row_key(order, r))
}

/// How many of so many memories a limit admits; a negative one admits all.
pub open spec fn admitted(limit: int, n: nat) -> nat {
    if limit < 0 || limit > n {
        n
    } else {
        limit as nat
    }
}

/// The memories that meet a condition, ordered and cut off.
pub open spec fn selected(rows: Seq<MemoryRowView>, c: ConditionView, order: RowOrder, limit: int) -> Seq<
    MemoryRowView,
> {
    let m = met_rows(rows, c);
    let keys = row_keys(order, m);
    picked(m, first_of(sorted_order(keys, keys.len() as int), admitted(limit, m.len())))
}

fn scope_is_asked(scopes: &Option<Vec<String>>, scope: &str) -> (r: bool)
    ensures
        r == scope_asked(opt_texts(*scopes), scope@),
{
    match scopes {
        None => true,
        Some(v) => {
            if v.len() == 0 {
                return true;
            }
            let mut i: usize = 0;
            while i < v.len()
                invariant
                    i <= v.len(),
                    opt_texts(*scopes) == Some(texts(v@)),
                    forall|k: int| 0 <= k < i ==> #[trigger] texts(v@)[k] != scope@,
                decreases v.len() - i,
            {
                if same(v[i].as_str(), scope) {
                    assert(texts(v@)[i as int] == scope@);
                    return true;
                }
                i = i + 1;
            }
            false
        },
    }
}

fn can_fold(m: &MemoryRow) -> (r: bool)
    ensures
        r == foldable(m@),
{
    match m.kind {
        MemoryKind::Event => m.word.is_none(),
        MemoryKind::Note => m.word.is_none(),
        _ => false,
    }
}

impl RowFilter {
    /// The filter that admits every memory.
    pub fn any() -> (r: RowFilter)
        ensures
            r@ == any_row(),
    {
        RowFilter {
            scopes: None,
            kind: None,
            word: None,
            foldable: false,
            folded: None,
            embedded: None,
            since: None,
            before: None,
            like: None,
        }
    }

    /// The filter that admits the memories of a scope, or all where none is given.
    pub fn of(scope: Option<&str>) -> (r: RowFilter)
        ensures
            r@ == any_of(match scope {
                Some(s) => Some(s@),
                None => None,
            }),
    {
        let mut r = RowFilter::any();
        if let Some(s) = scope {
            let mut v: Vec<String> = Vec::new();
            v.push(s.to_owned());
            assert(texts(v@) =~= seq![s@]);
            r.scopes = Some(v);
        }
        r
    }

    /// Whether the filter admits a memory.
    pub fn is_admitted(&self, r: &MemoryRow) -> (b: bool)
        ensures
            b == self@.admits(r@),
    {
        if !scope_is_asked(&self.scopes, r.scope.as_str()) {
            return false;
        }
        if let Some(k) = self.kind {
            if k != r.kind || r.word.is_some() {
                return false;
            }
        }
        if let Some(w) = &self.word {
            let own = match &r.word {
                Some(v) => same(v.as_str(), w.as_str()),
                None => false,
            };
            if !own {
                return false;
            }
        }
        if self.foldable && !can_fold(r) {
            return false;
        }
        if let Some(f) = self.folded {
            if f != r.consolidated_into.is_some() {
                return false;
            }
        }
        if let Some(e) = self.embedded {
            if e != r.embedding.is_some() {
                return false;
            }
        }
        if let Some(t) = self.since {
            if r.created_at < t {
                return false;
            }
        }
        if let Some(t) = self.before {
            if r.created_at >= t {
                return false;
            }
        }
        match &self.like {
            Some(p) => is_following(p.as_str(), r.text.as_str()),
            None => true,
        }
    }
}

fn has_id(ids: &Vec<i64>, id: i64) -> (r: bool)
    ensures
        r == ids@.contains(id),
{
    let mut i: usize = 0;
    while i < ids.len()
        invariant
            i <= ids.len(),
            forall|k: int| 0 <= k < i ==> ids@[k] != id,
        decreases ids.len() - i,
    {
        if ids[i] == id {
            return true;
        }
        i = i + 1;
    }
    false
}

impl Condition {
    /// Whether a memory meets the condition.
    pub fn is_met(&self, r: &MemoryRow) -> (b: bool)
        ensures
            b == self@.met(r@),
    {
        match self {
            Condition::Ids(ids) => has_id(ids, r.id),
            Condition::Rows(f) => f.is_admitted(r),
            Condition::Prunable { scope, before, floor } => {
                let own = match scope {
                    Some(s) => same(s.as_str(), r.scope.as_str()),
                    None => true,
                };
                own && can_fold(r) && (r.consolidated_into.is_some() || (r.created_at < *before
                    && r.recall_count == 0 && r.importance.less_than(*floor)))
            },
        }
    }
}

fn key_of_row(order: RowOrder, r: &MemoryRow) -> (k: Key)
    ensures
        k == row_key(order, r@),
{
    match order {
        RowOrder::Stored => (0, 0),
        RowOrder::Newest => (-(r.created_at as i128), 0),
        RowOrder::NewestRow => (-(r.created_at as i128), -(r.id as i128)),
        RowOrder::Oldest => (r.created_at as i128, r.id as i128),
    }
}

impl Store {
    /// The positions of the memories that meet a condition.
    fn met_positions(&self, c: &Condition) -> (r: Vec<usize>)
        ensures
            forall|j: int| 0 <= j < r@.len() ==> #[trigger] r@[j] < self.memories@.len(),
            picked(self@.memories, positions(r@)) == met_rows(self@.memories, c@),
    {
        let ghost rows = self@.memories;
        let mut r: Vec<usize> = Vec::new();
        let mut i: usize = 0;
        assert(picked(rows, positions(r@)) =~= met_rows(rows.take(0), c@));
        while i < self.memories.len()
            invariant
                i <= self.memories.len(),
                rows == self@.memories,
                forall|j: int| 0 <= j < r@.len() ==> #[trigger] r@[j] < i,
                picked(rows, positions(r@)) == met_rows(rows.take(i as int), c@),
            decreases self.memories.len() - i,
        {
            assert(rows.take(i + 1).drop_last() =~= rows.take(i as int));
            assert(rows[i as int] == self.memories@[i as int]@);
            if c.is_met(&self.memories[i]) {
                let ghost before = picked(rows, positions(r@));
                r.push(i);
                assert(picked(rows, positions(r@)) =~= before.push(rows[i as int]));
            }
            i = i + 1;
        }
        assert(rows.take(i as int) =~= rows);
        r
    }

    /// The positions of the memories that meet a condition, ordered and cut off.
    pub fn select(&self, c: &Condition, order: RowOrder, limit: i64) -> (r: Vec<usize>)
        ensures
            forall|j: int| 0 <= j < r@.len() ==> #[trigger] r@[j] < self.memories@.len(),
            picked(self@.memories, positions(r@)) == selected(self@.memories, c@, order, limit as int),
    {
        let at = self.met_positions(c);
        let ghost rows = self@.memories;
        let ghost m = met_rows(rows, c@);
        let n: usize = at.len();
        let mut keys: Vec<Key> = Vec::new();
        let mut i: usize = 0;
        while i < n
            invariant
                i <= n,
                n == at@.len(),
                rows == self@.memories,
                m == picked(rows, positions(at@)),
                forall|j: int| 0 <= j < at@.len() ==> #[trigger] at@[j] < self.memories@.len(),
                keys@.len() == i,
                forall|j: int| 0 <= j < i ==> #[trigger] keys@[j] == row_key(order, m[j]),
            decreases n - i,
        {
            let k: usize = at[i];
            assert(m[i as int] == self.memories@[k as int]@);
            keys.push(key_of_row(order, &self.memories[k]));
            i = i + 1;
        }
        assert(keys@ =~= row_keys(order, m));
        let sorted = sort_order(&keys);
        let size: usize = if limit < 0 || limit as u64 > n as u64 {
            n
        } else {
            limit as usize
        };
        let ghost goal = selected(rows, c@, order, limit as int);
        let ghost first = first_of(positions(sorted@), size as nat);
        assert(size == admitted(limit as int, m.len()));
        assert(goal == picked(m, first));
        let mut r: Vec<usize> = Vec::new();
        let mut j: usize = 0;
        while j < size
            invariant
                j <= size,
                size <= n,
                n == at@.len(),
                sorted@.len() == n,
                rows == self@.memories,
                rows.len() == self.memories@.len(),
                m == picked(rows, positions(at@)),
                first == first_of(positions(sorted@), size as nat),
                goal == picked(m, first),
                forall|x: int| 0 <= x < at@.len() ==> #[trigger] at@[x] < self.memories@.len(),
                forall|x: int| 0 <= x < sorted@.len() ==> #[trigger] sorted@[x] < n,
                r@.len() == j,
                forall|x: int| 0 <= x < j ==> #[trigger] r@[x] < self.memories@.len(),
                forall|x: int| 0 <= x < j ==> rows[(#[trigger] r@[x]) as int] == goal[x],
            decreases size - j,
        {
            let s: usize = sorted[j];
            let p: usize = at[s];
            assert(first[j as int] == s as int);
            assert(goal[j as int] == m[s as int]);
            assert(m[s as int] == rows[p as int]);
            r.push(p);
            j = j + 1;
        }
        assert(picked(rows, positions(r@)) =~= goal);
        r
    }

    /// How many memories meet a condition.
    pub fn count(&self, c: &Condition) -> (r: usize)
        ensures
            r == met_rows(self@.memories, c@).len(),
    {
        let at = self.met_positions(c);
        let ghost m = picked(self@.memories, positions(at@));
        assert(m.len() == at@.len());
        at.len()
    }
}

// ---------------------------------------------------------------------------
// What is asked of the table
// ---------------------------------------------------------------------------

/// A memory as a candidate of the given sources.
pub open spec fn candidate_of(r: MemoryRowView, sources: Seq<Seq<char>>) -> CandidateView {
    CandidateView {
        id: r.id,
        scope: r.scope,
        kind: r.kind,
        text: r.text,
        created_at: r.created_at,
        recall_count: r.recall_count,
        importance: r.importance,
        bm25: None,
        vector_sim: None,
        source_signals: sources,
    }
}

/// Memories as candidates of the given sources.
pub open spec fn as_candidates(rows: Seq<MemoryRowView>, sources: Seq<Seq<char>>) -> Seq<CandidateView> {
    rows.map_values(|r: MemoryRowView| candidate_of(r, sources))
}

/// Candidates with the bytes of their meanings.
pub open spec fn embedded_of(v: Seq<(Candidate, Vec<u8>)>) -> Seq<(CandidateView, Seq<u8>)> {
    v.map_values(|p: (Candidate, Vec<u8>)| (p.0@, p.1@))
}

/// A memory as one that can be folded.
pub open spec fn fold_of(r: MemoryRowView) -> ConsolidationRowView {
    ConsolidationRowView {
        id: r.id,
        session_id: r.session_id,
        text: r.text,
        importance: r.importance,
    }
}

/// A memory as it is shown.
pub open spec fn record_of(r: MemoryRowView) -> MemoryRecordView {
    MemoryRecordView {
        id: r.id,
        scope: r.scope,
        session_id: r.session_id,
        kind: r.kind,
        text: r.text,
        importance: r.importance,
        created_at: r.created_at,
        last_recalled_at: r.last_recalled_at,
        recall_count: r.recall_count,
        has_embedding: r.embedding is Some,
        consolidated_into: r.consolidated_into,
    }
}

/// The memories of a scope that can be folded into a summary.
pub open spec fn foldable_rows(scope: Option<Seq<char>>) -> ConditionView {
    ConditionView::Rows(FilterView { foldable: true, folded: Some(false), ..any_of(scope) })
}

/// The memories of a scope, or of all, and of a category, or of all.
pub open spec fn rows_asked(scope: Option<Seq<char>>, kind: Option<MemoryKind>) -> ConditionView {
    ConditionView::Rows(FilterView { kind, ..any_of(scope) })
}

/// A limit inside bounds.
pub open spec fn bounded(limit: int, least: int, most: int) -> int {
    if limit < least {
        least
    } else if limit > most {
        most
    } else {
        limit
    }
}

/// The memories shown on request, the newest first.
pub open spec fn listed(rows: Seq<MemoryRowView>, scope: Option<Seq<char>>, kind: Option<MemoryKind>, limit: int) -> Seq<
    MemoryRecordView,
> {
    selected(rows, rows_asked(scope, kind), RowOrder::NewestRow, limit).map_values(
        |r: MemoryRowView| record_of(r),
    )
}

/// The mathematical form of an exported memory.
pub open spec fn exports_of(v: Seq<(String, i64, MemoryKind, String)>) -> Seq<
    (Seq<char>, i64, MemoryKind, Seq<char>),
> {
    v.map_values(|e: (String, i64, MemoryKind, String)| (e.0@, e.1, e.2, e.3@))
}

/// The memories as they are exported, the oldest first.
pub open spec fn exported(rows: Seq<MemoryRowView>) -> Seq<(Seq<char>, i64, MemoryKind, Seq<char>)> {
    selected(rows, ConditionView::Rows(any_row()), RowOrder::Oldest, -1).map_values(
        |r: MemoryRowView| (r.scope, r.created_at, r.kind, r.text),
    )
}

fn scopes_copied(scopes: Option<&Vec<String>>) -> (r: Option<Vec<String>>)
    ensures
        opt_texts(r) == (match scopes {
            Some(v) => Some(texts(v@)),
            None => None,
        }),
{
    match scopes {
        Some(v) => Some(clone_texts(v)),
        None => None,
    }
}

/// The texts of an optional reference.
pub open spec fn asked_scopes(scopes: Option<&Vec<String>>) -> Option<Seq<Seq<char>>> {
    match scopes {
        Some(v) => Some(texts(v@)),
        None => None,
    }
}

fn candidate_from(r: &MemoryRow, source: Option<&str>) -> (c: Candidate)
    ensures
        c@ == candidate_of(r@, sources_of(source)),
{
    let mut source_signals: Vec<String> = Vec::new();
    assert(texts(source_signals@) =~= Seq::empty());
    if let Some(s) = source {
        push_text(&mut source_signals, s);
        assert(texts(source_signals@) =~= seq![s@]);
    }
    Candidate {
        id: r.id,
        scope: r.scope.clone(),
        kind: r.kind,
        text: r.text.clone(),
        created_at: r.created_at,
        recall_count: r.recall_count,
        importance: r.importance,
        bm25: None,
        vector_sim: None,
        source_signals,
    }
}

/// The sources of an optional source.
pub open spec fn sources_of(source: Option<&str>) -> Seq<Seq<char>> {
    match source {
        Some(s) => seq![s@],
        None => Seq::empty(),
    }
}

impl Store {
    fn candidates_at(&self, at: &Vec<usize>, source: Option<&str>) -> (r: Vec<Candidate>)
        requires
            forall|j: int| 0 <= j < at@.len() ==> #[trigger] at@[j] < self.memories@.len(),
        ensures
            candidates_of(r@) == as_candidates(picked(self@.memories, positions(at@)), sources_of(source)),
    {
        let ghost goal = as_candidates(picked(self@.memories, positions(at@)), sources_of(source));
        let mut r: Vec<Candidate> = Vec::new();
        let mut i: usize = 0;
        while i < at.len()
            invariant
                i <= at.len(),
                forall|j: int| 0 <= j < at@.len() ==> #[trigger] at@[j] < self.memories@.len(),
                goal == as_candidates(picked(self@.memories, positions(at@)), sources_of(source)),
                r@.len() == i,
                forall|j: int| 0 <= j < i ==> (#[trigger] r@[j])@ == goal[j],
            decreases at.len() - i,
        {
            let k: usize = at[i];
            assert(picked(self@.memories, positions(at@))[i as int] == self.memories@[k as int]@);
            r.push(candidate_from(&self.memories[k], source));
            i = i + 1;
        }
        assert(candidates_of(r@) =~= goal);
        r
    }

    /// The newest memories of the given scopes. The limit is spent inside the scopes.
    pub fn recent_candidates(&self, limit: i64, scopes: Option<&Vec<String>>) -> (r: Vec<Candidate>)
        ensures
            candidates_of(r@) == as_candidates(
                selected(
                    self@.memories,
                    ConditionView::Rows(FilterView { scopes: asked_scopes(scopes), ..any_row() }),
                    RowOrder::Newest,
                    limit as int,
                ),
                seq!["recent"@],
            ),
    {
        let mut f = RowFilter::any();
        f.scopes = scopes_copied(scopes);
        let at = self.select(&Condition::Rows(f), RowOrder::Newest, limit);
        self.candidates_at(&at, Some("recent"))
    }

    /// The newest memories of the given scopes whose text holds a question, whatever its case
    /// where it is ASCII. In the question, `%` and `_` stand for other characters.
    pub fn cjk_fallback_candidates(&self, query: &str, limit: i64, scopes: Option<&Vec<String>>) -> (r: Vec<
        Candidate,
    >)
        ensures
            candidates_of(r@) == as_candidates(
                selected(
                    self@.memories,
                    ConditionView::Rows(
                        FilterView {
                            scopes: asked_scopes(scopes),
                            like: Some(holding(trimmed(query@))),
                            ..any_row()
                        },
                    ),
                    RowOrder::Newest,
                    limit as int,
                ),
                seq!["cjk_fallback"@],
            ),
    {
        let mut pattern = String::from_str("%");
        let t = str_trim(query);
        pattern.append(t.as_str());
        pattern.append("%");
        let mut f = RowFilter::any();
        f.scopes = scopes_copied(scopes);
        f.like = Some(pattern);
        let at = self.select(&Condition::Rows(f), RowOrder::Newest, limit);
        self.candidates_at(&at, Some("cjk_fallback"))
    }

    /// The newest memories of the given scopes that have a meaning, with its bytes.
    pub fn embedded_candidates(&self, limit: i64, scopes: Option<&Vec<String>>) -> (r: Vec<(Candidate, Vec<u8>)>)
        ensures
            embedded_of(r@) == selected(
                self@.memories,
                ConditionView::Rows(
                    FilterView { scopes: asked_scopes(scopes), embedded: Some(true), ..any_row() },
                ),
                RowOrder::Newest,
                limit as int,
            ).map_values(|r: MemoryRowView| (candidate_of(r, Seq::empty()), r.embedding->0)),
    {
        let mut f = RowFilter::any();
        f.scopes = scopes_copied(scopes);
        f.embedded = Some(true);
        let ghost c = ConditionView::Rows(f@);
        let at = self.select(&Condition::Rows(f), RowOrder::Newest, limit);
        let ghost rows = selected(self@.memories, c, RowOrder::Newest, limit as int);
        proof {
            selected_rows_meet(self@.memories, c, RowOrder::Newest, limit as int);
        }
        let ghost goal = rows.map_values(
            |r: MemoryRowView| (candidate_of(r, Seq::empty()), r.embedding->0),
        );
        let mut r: Vec<(Candidate, Vec<u8>)> = Vec::new();
        let mut i: usize = 0;
        while i < at.len()
            invariant
                i <= at.len(),
                forall|j: int| 0 <= j < at@.len() ==> #[trigger] at@[j] < self.memories@.len(),
                rows == picked(self@.memories, positions(at@)),
                forall|j: int| 0 <= j < rows.len() ==> (#[trigger] rows[j]).embedding is Some,
                goal == rows.map_values(
                    |r: MemoryRowView| (candidate_of(r, Seq::empty()), r.embedding->0),
                ),
                r@.len() == i,
                forall|j: int| 0 <= j < i ==> ((#[trigger] r@[j]).0@, r@[j].1@) == goal[j],
            decreases at.len() - i,
        {
            let k: usize = at[i];
            assert(rows[i as int] == self.memories@[k as int]@);
            let mut blob: Vec<u8> = Vec::new();
            if let Some(b) = &self.memories[k].embedding {
                blob = b.clone();
                assert(blob@ =~= b@);
            }
            r.push((candidate_from(&self.memories[k], None), blob));
            i = i + 1;
        }
        assert(embedded_of(r@) =~= goal);
        r
    }

    /// The ids and texts of the first memories whose meaning was not found yet.
    pub fn rows_missing_embedding(&self, limit: i64) -> (r: Vec<(i64, String)>)
        ensures
            r@.map_values(|p: (i64, String)| (p.0, p.1@)) == selected(
                self@.memories,
                ConditionView::Rows(FilterView { embedded: Some(false), ..any_row() }),
                RowOrder::Stored,
                limit as int,
            ).map_values(|r: MemoryRowView| (r.id, r.text)),
    {
        let mut f = RowFilter::any();
        f.embedded = Some(false);
        let ghost c = ConditionView::Rows(f@);
        let at = self.select(&Condition::Rows(f), RowOrder::Stored, limit);
        let ghost rows = selected(self@.memories, c, RowOrder::Stored, limit as int);
        let mut r: Vec<(i64, String)> = Vec::new();
        let mut i: usize = 0;
        while i < at.len()
            invariant
                i <= at.len(),
                forall|j: int| 0 <= j < at@.len() ==> #[trigger] at@[j] < self.memories@.len(),
                rows == picked(self@.memories, positions(at@)),
                r@.len() == i,
                forall|j: int| 0 <= j < i ==> (#[trigger] r@[j]).0 == rows[j].id && r@[j].1@ == rows[j].text,
            decreases at.len() - i,
        {
            let k: usize = at[i];
            assert(rows[i as int] == self.memories@[k as int]@);
            r.push((self.memories[k].id, self.memories[k].text.clone()));
            i = i + 1;
        }
        assert(r@.map_values(|p: (i64, String)| (p.0, p.1@)) =~= rows.map_values(
            |r: MemoryRowView| (r.id, r.text),
        ));
        r
    }

    /// The memories of a scope that can be folded into a summary, the oldest first.
    pub fn consolidation_candidates(&self, scope: &str) -> (r: Vec<ConsolidationRow>)
        ensures
            folds_of(r@) == selected(
                self@.memories,
                foldable_rows(Some(scope@)),
                RowOrder::Oldest,
                -1,
            ).map_values(|r: MemoryRowView| fold_of(r)),
    {
        let mut f = RowFilter::of(Some(scope));
        f.foldable = true;
        f.folded = Some(false);
        let ghost c = foldable_rows(Some(scope@));
        let at = self.select(&Condition::Rows(f), RowOrder::Oldest, -1);
        let ghost rows = selected(self@.memories, c, RowOrder::Oldest, -1);
        let mut r: Vec<ConsolidationRow> = Vec::new();
        let mut i: usize = 0;
        while i < at.len()
            invariant
                i <= at.len(),
                forall|j: int| 0 <= j < at@.len() ==> #[trigger] at@[j] < self.memories@.len(),
                rows == picked(self@.memories, positions(at@)),
                r@.len() == i,
                forall|j: int| 0 <= j < i ==> (#[trigger] r@[j])@ == fold_of(rows[j]),
            decreases at.len() - i,
        {
            let k: usize = at[i];
            assert(rows[i as int] == self.memories@[k as int]@);
            let m = &self.memories[k];
            r.push(
                ConsolidationRow {
                    id: m.id,
                    session_id: clone_opt(&m.session_id),
                    text: m.text.clone(),
                    importance: m.importance,
                },
            );
            i = i + 1;
        }
        assert(folds_of(r@) =~= rows.map_values(|r: MemoryRowView| fold_of(r)));
        r
    }

    /// The ids of the memories that may be forgotten.
    pub fn prune_candidates(&self, scope: Option<&str>, max_age_secs: i64, importance_floor: Real, now: i64) -> (r: Vec<
        i64,
    >)
        requires
            i64::MIN <= now - max_age_secs <= i64::MAX,
        ensures
            r@ == selected(
                self@.memories,
                prunable_rows(opt_str_view(scope), max_age_secs, importance_floor, now),
                RowOrder::Stored,
                -1,
            ).map_values(|r: MemoryRowView| r.id),
    {
        let c = prune_condition(scope, max_age_secs, importance_floor, now);
        let at = self.select(&c, RowOrder::Stored, -1);
        let ghost rows = selected(self@.memories, c@, RowOrder::Stored, -1);
        let mut r: Vec<i64> = Vec::new();
        let mut i: usize = 0;
        while i < at.len()
            invariant
                i <= at.len(),
                forall|j: int| 0 <= j < at@.len() ==> #[trigger] at@[j] < self.memories@.len(),
                rows == picked(self@.memories, positions(at@)),
                r@.len() == i,
                forall|j: int| 0 <= j < i ==> #[trigger] r@[j] == rows[j].id,
            decreases at.len() - i,
        {
            let k: usize = at[i];
            assert(rows[i as int] == self.memories@[k as int]@);
            r.push(self.memories[k].id);
            i = i + 1;
        }
        assert(r@ =~= rows.map_values(|r: MemoryRowView| r.id));
        r
    }

    /// The memories shown on request, the newest first: at least one and at most a hundred and
    /// one.
    pub fn list_records(&self, scope: Option<&str>, kind: Option<MemoryKind>, limit: i64) -> (r: Vec<MemoryRecord>)
        ensures
            records_of(r@) == listed(
                self@.memories,
                opt_str_view(scope),
                kind,
                bounded(limit as int, 1, 101),
            ),
    {
        let mut f = RowFilter::of(scope);
        f.kind = kind;
        let n: i64 = if limit < 1 {
            1
        } else if limit > 101 {
            101
        } else {
            limit
        };
        let at = self.select(&Condition::Rows(f), RowOrder::NewestRow, n);
        let ghost rows = picked(self@.memories, positions(at@));
        let mut r: Vec<MemoryRecord> = Vec::new();
        let mut i: usize = 0;
        while i < at.len()
            invariant
                i <= at.len(),
                forall|j: int| 0 <= j < at@.len() ==> #[trigger] at@[j] < self.memories@.len(),
                rows == picked(self@.memories, positions(at@)),
                r@.len() == i,
                forall|j: int| 0 <= j < i ==> (#[trigger] r@[j])@ == record_of(rows[j]),
            decreases at.len() - i,
        {
            let k: usize = at[i];
            assert(rows[i as int] == self.memories@[k as int]@);
            let m = &self.memories[k];
            r.push(
                MemoryRecord {
                    id: m.id,
                    scope: m.scope.clone(),
                    session_id: clone_opt(&m.session_id),
                    kind: m.kind,
                    text: m.text.clone(),
                    importance: m.importance,
                    created_at: m.created_at,
                    last_recalled_at: m.last_recalled_at,
                    recall_count: m.recall_count,
                    has_embedding: m.embedding.is_some(),
                    consolidated_into: m.consolidated_into,
                },
            );
            i = i + 1;
        }
        assert(records_of(r@) =~= rows.map_values(|r: MemoryRowView| record_of(r)));
        r
    }

    /// A page of the newest memories: as many as asked for, at least one and at most a hundred,
    /// and whether there are more.
    pub fn records(&self, scope: Option<&str>, kind: Option<MemoryKind>, limit: i64) -> (r: MemoryRecordsPage)
        ensures
            ({
                let n = bounded(limit as int, 1, 100);
                let all = listed(self@.memories, opt_str_view(scope), kind, n + 1);
                r.has_more == (all.len() > n) && records_of(r.records@) == (if all.len() > n {
                    all.drop_last()
                } else {
                    all
                })
            }),
    {
        let n: i64 = if limit < 1 {
            1
        } else if limit > 100 {
            100
        } else {
            limit
        };
        let mut records = self.list_records(scope, kind, n + 1);
        let ghost all = records_of(records@);
        let has_more = records.len() > n as usize;
        if has_more {
            let ghost before = records@;
            records.pop();
            assert(records_of(records@) =~= all.drop_last());
        }
        MemoryRecordsPage { records, has_more }
    }

    /// All memories as they are exported, the oldest first.
    pub fn all_for_export(&self) -> (r: Vec<(String, i64, MemoryKind, String)>)
        ensures
            exports_of(r@) == exported(self@.memories),
    {
        let at = self.select(&Condition::Rows(RowFilter::any()), RowOrder::Oldest, -1);
        let ghost rows = picked(self@.memories, positions(at@));
        let mut r: Vec<(String, i64, MemoryKind, String)> = Vec::new();
        let mut i: usize = 0;
        while i < at.len()
            invariant
                i <= at.len(),
                forall|j: int| 0 <= j < at@.len() ==> #[trigger] at@[j] < self.memories@.len(),
                rows == picked(self@.memories, positions(at@)),
                r@.len() == i,
                forall|j: int|
                    0 <= j < i ==> ((#[trigger] r@[j]).0@, r@[j].1, r@[j].2, r@[j].3@) == (
                        rows[j].scope,
                        rows[j].created_at,
                        rows[j].kind,
                        rows[j].text,
                    ),
            decreases at.len() - i,
        {
            let k: usize = at[i];
            assert(rows[i as int] == self.memories@[k as int]@);
            let m = &self.memories[k];
            r.push((m.scope.clone(), m.created_at, m.kind, m.text.clone()));
            i = i + 1;
        }
        assert(exports_of(r@) =~= exported(self@.memories));
        r
    }
}

/// The memories that may be forgotten at a moment.
pub open spec fn prunable_rows(scope: Option<Seq<char>>, max_age_secs: i64, floor: Real, now: i64) -> ConditionView {
    ConditionView::Prunable {
        scope,
        before: (now - max_age_secs) as i64,
        floor,
    }
}

fn prune_condition(scope: Option<&str>, max_age_secs: i64, floor: Real, now: i64) -> (r: Condition)
    requires
        i64::MIN <= now - max_age_secs <= i64::MAX,
    ensures
        r@ == prunable_rows(opt_str_view(scope), max_age_secs, floor, now),
{
    let own = match scope {
        Some(s) => Some(s.to_owned()),
        None => None,
    };
    Condition::Prunable { scope: own, before: now - max_age_secs, floor }
}

proof fn met_rows_stand_in_the_table(rows: Seq<MemoryRowView>, c: ConditionView)
    ensures
        forall|i: int| 0 <= i < met_rows(rows, c).len() ==> rows.contains(#[trigger] met_rows(rows, c)[i]),
    decreases rows.len(),
{
    if rows.len() > 0 {
        let d = rows.drop_last();
        met_rows_stand_in_the_table(d, c);
        assert forall|i: int| 0 <= i < met_rows(rows, c).len() implies rows.contains(#[trigger] met_rows(rows, c)[i]) by {
            if i < met_rows(d, c).len() {
                assert(met_rows(rows, c)[i] == met_rows(d, c)[i]);
                let k = choose|k: int| 0 <= k < d.len() && d[k] == met_rows(d, c)[i];
                assert(rows[k] == d[k]);
            } else {
                assert(rows[rows.len() - 1] == rows.last());
            }
        }
    }
}

/// What is selected meets the condition, stands in the table, and is in order.
pub proof fn selected_rows_meet(rows: Seq<MemoryRowView>, c: ConditionView, order: RowOrder, limit: int)
    ensures
        forall|i: int|
            0 <= i < selected(rows, c, order, limit).len() ==> c.met(#[trigger] selected(rows, c, order, limit)[i]),
        forall|i: int|
            0 <= i < selected(rows, c, order, limit).len() ==> rows.contains(
                #[trigger] selected(rows, c, order, limit)[i],
            ),
        selected(rows, c, order, limit).len() == admitted(limit, met_rows(rows, c).len()),
        forall|i: int, j: int|
            0 <= i < j < selected(rows, c, order, limit).len() ==> !key_before(
                row_key(order, #[trigger] selected(rows, c, order, limit)[j]),
                row_key(order, #[trigger] selected(rows, c, order, limit)[i]),
            ),
{
    let m = met_rows(rows, c);
    let keys = row_keys(order, m);
    let n = keys.len() as int;
    let s = selected(rows, c, order, limit);
    let all = sorted_order(keys, n);
    sorting_is_a_permutation(keys, n);
    conditions_split_the_table(rows, c);
    assert forall|i: int| 0 <= i < s.len() implies c.met(#[trigger] s[i]) by {
        assert(all.contains(all[i]));
        assert(s[i] == m[all[i]]);
    }
    met_rows_stand_in_the_table(rows, c);
    assert forall|i: int| 0 <= i < s.len() implies rows.contains(#[trigger] s[i]) by {
        assert(all.contains(all[i]));
        assert(s[i] == m[all[i]]);
    }
    assert forall|i: int, j: int| 0 <= i < j < s.len() implies !key_before(
        row_key(order, #[trigger] s[j]),
        row_key(order, #[trigger] s[i]),
    ) by {
        assert(all.contains(all[i]) && all.contains(all[j]));
        assert(s[i] == m[all[i]] && s[j] == m[all[j]]);
        assert(keys[all[i]] == row_key(order, s[i]));
        assert(keys[all[j]] == row_key(order, s[j]));
    }
}

/// Only events and notes are ever forgotten.
pub proof fn lasting_memories_are_not_pruned(r: MemoryRowView, scope: Option<Seq<char>>, before: i64, floor: Real)
    requires
        r.kind is Decision || r.kind is Skill || r.kind is Summary || r.word is Some,
    ensures
        !(ConditionView::Prunable { scope, before, floor }).met(r),
{
}

/// A memory newer than all others is the first of those selected by their age, wherever it is
/// asked for.
pub proof fn the_newest_memory_comes_first(rows: Seq<MemoryRowView>, r: MemoryRowView, c: ConditionView, limit: int)
    requires
        forall|i: int| 0 <= i < rows.len() ==> (#[trigger] rows[i]).created_at < r.created_at,
        c.met(r),
        limit != 0,
    ensures
        selected(rows.push(r), c, RowOrder::Newest, limit).len() > 0,
        selected(rows.push(r), c, RowOrder::Newest, limit)[0] == r,
{
    let t = rows.push(r);
    assert(t.drop_last() =~= rows);
    let m = met_rows(t, c);
    let keys = row_keys(RowOrder::Newest, m);
    let n = keys.len() as int;
    let all = sorted_order(keys, n);
    sorting_is_a_permutation(keys, n);
    met_rows_stand_in_the_table(rows, c);
    assert(m == met_rows(rows, c).push(r));
    assert(all.contains(n - 1));
    let k = choose|k: int| 0 <= k < all.len() && all[k] == n - 1;
    if k > 0 {
        assert(all.contains(all[0]));
        assert(all[0] != n - 1);
        let x = m[all[0]];
        assert(x == met_rows(rows, c)[all[0]]);
        let j = choose|j: int| 0 <= j < rows.len() && rows[j] == x;
        assert(rows[j].created_at < r.created_at);
        assert(keys[all[0]] == row_key(RowOrder::Newest, x));
        assert(keys[all[k]] == row_key(RowOrder::Newest, r));
        assert(key_before(keys[all[k]], keys[all[0]]));
        assert(false);
    }
    assert(selected(t, c, RowOrder::Newest, limit)[0] == m[all[0]]);
}

} // verus!
