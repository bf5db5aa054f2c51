//! Counting what the memory holds.
use crate::memory::model::{AgeBuckets, EmbeddingCoverage, KindCount, MemoryKind, ScopeCount, Snapshot, Stats};
use crate::memory::queries::{
    any_of, conditions_split_the_table, foldable_rows, met_rows, prunable_rows, rows_asked, Condition, ConditionView,
    FilterView, RowFilter,
};
use crate::memory::store::{ids_grow, MemoryRowView, Store};
use crate::order::{is_text_before, picked, positions, sort_order, sorted_order, sorting_is_a_permutation, text_before, Key, Real};
use crate::text::{opt_str_view, same, texts};
use vstd::prelude::*;

verus! {

// ---------------------------------------------------------------------------
// Scopes
// ---------------------------------------------------------------------------

/// An ordered list of texts with one more, unless it is there.
pub open spec fn with_text(list: Seq<Seq<char>>, t: Seq<char>) -> Seq<Seq<char>>
    decreases list.len(),
{
    if list.len() == 0 {
        seq![t]
    } else if text_before(t, list.last()) {
        with_text(list.drop_last(), t).push(list.last())
    } else if list.last() == t {
        list
    } else {
        list.push(t)
    }
}

/// The scopes of memories, each once, in the order of their texts.
pub open spec fn scopes_in(rows: Seq<MemoryRowView>) -> Seq<Seq<char>>
    decreases rows.len(),
{
    if rows.len() == 0 {
        Seq::empty()
    } else {
        with_text(scopes_in(rows.drop_last()), rows.last().scope)
    }
}

proof fn with_text_splits(list: Seq<Seq<char>>, t: Seq<char>, k: int)
    requires
        0 <= k <= list.len(),
        k > 0 ==> !text_before(t, list[k - 1]),
        forall|j: int| k <= j < list.len() ==> text_before(t, #[trigger] list[j]),
    ensures
        with_text(list, t) == (if k > 0 && list[k - 1] == t {
            list
        } else {
            list.take(k).push(t) + list.skip(k)
        }),
    decreases list.len(),
{
    if k == list.len() {
        assert(list.take(k) =~= list);
        assert(list.take(k).push(t) + list.skip(k) =~= list.push(t));
        if list.len() == 0 {
            assert(seq![t] =~= list.push(t));
        }
    } else {
        assert(text_before(t, list[list.len() - 1]));
        let d = list.drop_last();
        with_text_splits(d, t, k);
        assert(d.take(k) =~= list.take(k));
        assert((d.take(k).push(t) + d.skip(k)).push(list.last()) =~= list.take(k).push(t) + list.skip(k));
        assert(d.push(list.last()) =~= list);
    }
}

proof fn codes_differ(a: char, b: char)
    ensures
        a != b ==> a as u32 != b as u32,
{
}

proof fn text_order_is_total(a: Seq<char>, b: Seq<char>)
    ensures
        text_before(a, b) || text_before(b, a) || a == b,
        !(text_before(a, b) && text_before(b, a)),
    decreases a.len(),
{
    if a.len() > 0 && b.len() > 0 && a[0] == b[0] {
        text_order_is_total(a.drop_first(), b.drop_first());
        assert(seq![a[0]] + a.drop_first() =~= a);
        assert(seq![b[0]] + b.drop_first() =~= b);
    } else if a.len() > 0 && b.len() > 0 {
        codes_differ(a[0], b[0]);
    } else if a.len() == 0 && b.len() == 0 {
        assert(a =~= b);
    }
}

proof fn text_order_is_transitive(a: Seq<char>, b: Seq<char>, c: Seq<char>)
    requires
        text_before(a, b),
        text_before(b, c),
    ensures
        text_before(a, c),
    decreases a.len(),
{
    if a.len() > 0 && a[0] == b[0] && b[0] == c[0] {
        text_order_is_transitive(a.drop_first(), b.drop_first(), c.drop_first());
    }
}

/// Every text of the list comes before those behind it.
pub open spec fn in_text_order(list: Seq<Seq<char>>) -> bool {
    forall|i: int, j: int| 0 <= i < j < list.len() ==> text_before(#[trigger] list[i], #[trigger] list[j])
}

proof fn with_text_facts(list: Seq<Seq<char>>, t: Seq<char>)
    requires
        in_text_order(list),
    ensures
        in_text_order(with_text(list, t)),
        forall|x: Seq<char>| #[trigger] with_text(list, t).contains(x) <==> list.contains(x) || x == t,
    decreases list.len(),
{
    let r = with_text(list, t);
    if list.len() == 0 {
        assert(r[0] == t);
    } else if text_before(t, list.last()) {
        let d = list.drop_last();
        let last = list.last();
        assert(in_text_order(d)) by {
            assert forall|i: int, j: int| 0 <= i < j < d.len() implies text_before(#[trigger] d[i], #[trigger] d[j]) by {
                assert(text_before(list[i], list[j]));
            }
        }
        with_text_facts(d, t);
        let w = with_text(d, t);
        assert forall|i: int, j: int| 0 <= i < j < r.len() implies text_before(#[trigger] r[i], #[trigger] r[j]) by {
            assert(r[i] == w[i]);
            if j < w.len() {
                assert(r[j] == w[j]);
            } else {
                assert(w.contains(w[i]));
                if w[i] != t {
                    let k = d.index_of(w[i]);
                    assert(d[k] == w[i]);
                    assert(text_before(list[k], list[list.len() - 1]));
                }
            }
        }
        assert forall|x: Seq<char>| #[trigger] r.contains(x) <==> list.contains(x) || x == t by {
            if r.contains(x) {
                let k = r.index_of(x);
                if k < w.len() {
                    assert(w[k] == x);
                    assert(w.contains(x));
                    if x != t {
                        let m = d.index_of(x);
                        assert(list[m] == x);
                    }
                } else {
                    assert(list[list.len() - 1] == x);
                }
            }
            if list.contains(x) {
                let k = list.index_of(x);
                if k < d.len() {
                    assert(d[k] == x);
                    assert(d.contains(x));
                    assert(w.contains(x));
                    let m = w.index_of(x);
                    assert(r[m] == x);
                } else {
                    assert(r[w.len() as int] == x);
                }
            }
            if x == t {
                assert(w.contains(t));
                let m = w.index_of(t);
                assert(r[m] == t);
            }
        }
    } else if list.last() == t {
        assert(list[list.len() - 1] == t);
    } else {
        text_order_is_total(t, list.last());
        assert forall|i: int, j: int| 0 <= i < j < r.len() implies text_before(#[trigger] r[i], #[trigger] r[j]) by {
            if j == list.len() {
                if i < list.len() - 1 {
                    assert(text_before(list[i], list[list.len() - 1]));
                    text_order_is_transitive(list[i], list.last(), t);
                }
            } else {
                assert(text_before(list[i], list[j]));
            }
        }
        assert forall|x: Seq<char>| #[trigger] r.contains(x) <==> list.contains(x) || x == t by {
            if r.contains(x) {
                let k = r.index_of(x);
                if k < list.len() {
                    assert(list[k] == x);
                }
            }
            if list.contains(x) {
                let k = list.index_of(x);
                assert(r[k] == x);
            }
            assert(r[list.len() as int] == t);
        }
    }
}

/// The list of scopes is ordered, names no scope twice, and names exactly the scopes that have
/// memories.
pub proof fn scopes_are_listed_once(rows: Seq<MemoryRowView>)
    ensures
        in_text_order(scopes_in(rows)),
        forall|x: Seq<char>| #[trigger]
            scopes_in(rows).contains(x) <==> exists|i: int| 0 <= i < rows.len() && (#[trigger] rows[i]).scope == x,
    decreases rows.len(),
{
    if rows.len() > 0 {
        let d = rows.drop_last();
        scopes_are_listed_once(d);
        with_text_facts(scopes_in(d), rows.last().scope);
        assert forall|x: Seq<char>| #[trigger] scopes_in(rows).contains(x) <==> exists|i: int|
            0 <= i < rows.len() && (#[trigger] rows[i]).scope == x by {
            if scopes_in(rows).contains(x) {
                if scopes_in(d).contains(x) {
                    let k = choose|i: int| 0 <= i < d.len() && (#[trigger] d[i]).scope == x;
                    assert(rows[k].scope == x);
                } else {
                    assert(rows[rows.len() - 1].scope == x);
                }
            }
            if exists|i: int| 0 <= i < rows.len() && (#[trigger] rows[i]).scope == x {
                let k = choose|i: int| 0 <= i < rows.len() && (#[trigger] rows[i]).scope == x;
                if k < d.len() {
                    assert(d[k].scope == x);
                }
            }
        }
    }
}

/// Adds a text to an ordered list, unless it is there.
fn add_once(list: &mut Vec<String>, t: &str)
    ensures
        texts(final(list)@) == with_text(texts(old(list)@), t@),
{
    let ghost all = texts(list@);
    let mut k: usize = list.len();
    while k > 0 && is_text_before(t, list[k - 1].as_str())
        invariant
            k <= list.len(),
            list@ == old(list)@,
            all == texts(list@),
            forall|j: int| k <= j < all.len() ==> text_before(t@, #[trigger] all[j]),
        decreases k,
    {
        assert(all[k - 1] == list@[k - 1]@);
        k = k - 1;
    }
    proof {
        if k > 0 {
            assert(all[k - 1] == list@[k - 1]@);
        }
        with_text_splits(all, t@, k as int);
    }
    if k == 0 || !same(list[k - 1].as_str(), t) {
        list.insert(k, t.to_owned());
        assert(texts(list@) =~= all.take(k as int).push(t@) + all.skip(k as int));
    }
}

impl Store {
    /// The scopes that have memories, in the order of their texts.
    pub fn list_scopes(&self) -> (r: Vec<String>)
        ensures
            texts(r@) == scopes_in(self@.memories),
    {
        let ghost rows = self@.memories;
        let mut r: Vec<String> = Vec::new();
        let mut i: usize = 0;
        assert(texts(r@) =~= scopes_in(rows.take(0)));
        while i < self.memories.len()
            invariant
                i <= self.memories.len(),
                rows == self@.memories,
                texts(r@) == scopes_in(rows.take(i as int)),
            decreases self.memories.len() - i,
        {
            assert(rows.take(i + 1).drop_last() =~= rows.take(i as int));
            assert(rows[i as int] == self.memories@[i as int]@);
            let scope = self.memories[i].scope.as_str();
            add_once(&mut r, scope);
            i = i + 1;
        }
        assert(rows.take(i as int) =~= rows);
        r
    }
}

// ---------------------------------------------------------------------------
// Counts
// ---------------------------------------------------------------------------

/// How many memories meet a condition.
pub open spec fn number_of(rows: Seq<MemoryRowView>, c: ConditionView) -> int {
    met_rows(rows, c).len() as int
}

proof fn ids_bound_rows(rows: Seq<MemoryRowView>, next_id: int, k: int)
    requires
        ids_grow(rows, next_id),
        0 <= k < rows.len(),
    ensures
        rows[k].id >= k + 1,
    decreases k,
{
    if k > 0 {
        ids_bound_rows(rows, next_id, k - 1);
        assert(rows[k - 1].id < rows[k].id);
    }
}

proof fn counts_fit(rows: Seq<MemoryRowView>, next_id: int, c: ConditionView)
    requires
        ids_grow(rows, next_id),
        next_id <= i64::MAX,
    ensures
        0 <= number_of(rows, c) <= rows.len() < next_id,
{
    conditions_split_the_table(rows, c);
    if rows.len() > 0 {
        ids_bound_rows(rows, next_id, rows.len() - 1);
        assert(rows[rows.len() - 1].id < next_id);
    }
}

/// The mathematical form of a scope's count.
pub struct ScopeCountView {
    pub scope: Seq<char>,
    pub count: int,
}

impl View for ScopeCount {
    type V = ScopeCountView;

    open spec fn view(&self) -> ScopeCountView {
        ScopeCountView { scope: self.scope@, count: self.count as int }
    }
}

/// The mathematical forms of scopes' counts.
pub open spec fn scope_counts_of(v: Seq<ScopeCount>) -> Seq<ScopeCountView> {
    v.map_values(|c: ScopeCount| c@)
}

/// How many memories each scope has, in the order of the scopes.
pub open spec fn scope_counts(rows: Seq<MemoryRowView>) -> Seq<ScopeCountView> {
    scopes_in(rows).map_values(
        |s: Seq<char>| ScopeCountView { scope: s, count: number_of(rows, rows_asked(Some(s), None)) },
    )
}

/// The key by which larger counts come first.
pub open spec fn count_key(count: int) -> Key {
    (-(count as i128) as i128, 0i128)
}

/// How many memories each scope has, the fullest first.
pub open spec fn fullest_scopes(rows: Seq<MemoryRowView>) -> Seq<ScopeCountView> {
    let c = scope_counts(rows);
    let keys = c.map_values(|x: ScopeCountView| count_key(x.count));
    picked(c, sorted_order(keys, keys.len() as int))
}

/// The mathematical form of a category's count.
pub struct KindCountView {
    pub kind: MemoryKind,
    pub count: int,
}

impl View for KindCount {
    type V = KindCountView;

    open spec fn view(&self) -> KindCountView {
        KindCountView { kind: self.kind, count: self.count as int }
    }
}

/// The mathematical forms of categories' counts.
pub open spec fn kind_counts_of(v: Seq<KindCount>) -> Seq<KindCountView> {
    v.map_values(|c: KindCount| c@)
}

/// The categories, in the order of their words.
pub open spec fn all_kinds() -> Seq<MemoryKind> {
    seq![
        MemoryKind::Decision,
        MemoryKind::Event,
        MemoryKind::Note,
        MemoryKind::Skill,
        MemoryKind::Summary,
    ]
}

/// The words of categories that are not known, each once, in the order of their texts.
pub open spec fn words_in(rows: Seq<MemoryRowView>) -> Seq<Seq<char>>
    decreases rows.len(),
{
    if rows.len() == 0 {
        Seq::empty()
    } else {
        match rows.last().word {
            Some(w) => with_text(words_in(rows.drop_last()), w),
            None => words_in(rows.drop_last()),
        }
    }
}

/// A category as it is stored.
pub enum StoredKind {
    Known(MemoryKind),
    Word(Seq<char>),
}

/// The categories that memories may have: the known ones, and behind them the other words that
/// stand in the table.
pub open spec fn stored_kinds(rows: Seq<MemoryRowView>) -> Seq<StoredKind> {
    all_kinds().map_values(|k: MemoryKind| StoredKind::Known(k)) + words_in(rows).map_values(
        |w: Seq<char>| StoredKind::Word(w),
    )
}

/// The memories of a category.
pub open spec fn of_kind(scope: Option<Seq<char>>, k: StoredKind) -> ConditionView {
    match k {
        StoredKind::Known(kind) => rows_asked(scope, Some(kind)),
        StoredKind::Word(w) => ConditionView::Rows(FilterView { word: Some(w), ..any_of(scope) }),
    }
}

/// What a category is shown as. One that is not known is shown as a note.
pub open spec fn kind_shown(k: StoredKind) -> MemoryKind {
    match k {
        StoredKind::Known(kind) => kind,
        StoredKind::Word(_) => MemoryKind::Note,
    }
}

/// How many memories each of the first categories has; only those that have any.
pub open spec fn kind_counts(rows: Seq<MemoryRowView>, scope: Option<Seq<char>>, n: int) -> Seq<KindCountView>
    decreases n,
{
    if n <= 0 {
        Seq::empty()
    } else {
        let k = stored_kinds(rows)[n - 1];
        let count = number_of(rows, of_kind(scope, k));
        if count == 0 {
            kind_counts(rows, scope, n - 1)
        } else {
            kind_counts(rows, scope, n - 1).push(KindCountView { kind: kind_shown(k), count })
        }
    }
}

/// How many memories each category has, the fullest first.
pub open spec fn fullest_kinds(rows: Seq<MemoryRowView>, scope: Option<Seq<char>>) -> Seq<KindCountView> {
    let c = kind_counts(rows, scope, stored_kinds(rows).len() as int);
    let keys = c.map_values(|x: KindCountView| count_key(x.count));
    picked(c, sorted_order(keys, keys.len() as int))
}

/// The memories made in a span of time, from its start up to its end.
pub open spec fn made_between(scope: Option<Seq<char>>, since: Option<i64>, before: Option<i64>) -> ConditionView {
    ConditionView::Rows(FilterView { since, before, ..any_of(scope) })
}

/// A moment so many days ago.
pub open spec fn days_ago(now: i64, days: int) -> Option<i64> {
    Some((now - days * 86_400) as i64)
}

/// The memories that have a meaning.
pub open spec fn embedded_rows(scope: Option<Seq<char>>) -> ConditionView {
    ConditionView::Rows(FilterView { embedded: Some(true), ..any_of(scope) })
}

/// The report tells of the memories as they are.
pub open spec fn is_snapshot(
    rows: Seq<MemoryRowView>,
    s: Option<Seq<char>>,
    now: i64,
    max_age_secs: i64,
    importance_floor: Real,
    r: Snapshot,
) -> bool {
    let day = days_ago(now, 1);
    let week = days_ago(now, 7);
    let month = days_ago(now, 30);
    &&& r.total == rows.len()
    &&& scope_counts_of(r.by_scope@) == fullest_scopes(rows)
    &&& kind_counts_of(r.by_kind@) == fullest_kinds(rows, s)
    &&& r.age.last_day == number_of(rows, made_between(s, day, None))
    &&& r.age.last_week == number_of(rows, made_between(s, week, day))
    &&& r.age.last_month == number_of(rows, made_between(s, month, week))
    &&& r.age.older == number_of(rows, made_between(s, None, month))
    &&& r.embedding.embedded == number_of(rows, embedded_rows(s))
    &&& r.embedding.total == number_of(rows, rows_asked(s, None))
    &&& r.consolidation_candidates == number_of(rows, foldable_rows(s))
    &&& r.prune_candidates == number_of(rows, prunable_rows(s, max_age_secs, importance_floor, now))
}

impl Store {
    fn count_i64(&self, c: &Condition) -> (r: i64)
        requires
            self@.wf(),
        ensures
            r == number_of(self@.memories, c@),
            r >= 0,
    {
        proof {
            counts_fit(self@.memories, self@.next_id as int, c@);
        }
        self.count(c) as i64
    }

    /// How many memories may be forgotten.
    pub fn count_prune_candidates(&self, scope: Option<&str>, max_age_secs: i64, importance_floor: Real, now: i64) -> (r: i64)
        requires
            self@.wf(),
            i64::MIN <= now - max_age_secs <= i64::MAX,
        ensures
            r == number_of(
                self@.memories,
                prunable_rows(opt_str_view(scope), max_age_secs, importance_floor, now),
            ),
    {
        let own = match scope {
            Some(s) => Some(s.to_owned()),
            None => None,
        };
        let c = Condition::Prunable { scope: own, before: now - max_age_secs, floor: importance_floor };
        assert(c@ == prunable_rows(opt_str_view(scope), max_age_secs, importance_floor, now));
        self.count_i64(&c)
    }

    /// How many memories there are, in all and by scope.
    pub fn stats(&self) -> (r: Stats)
        requires
            self@.wf(),
        ensures
            r.total == self@.memories.len(),
            scope_counts_of(r.by_scope@) == fullest_scopes(self@.memories),
    {
        let scopes = self.list_scopes();
        let ghost rows = self@.memories;
        let ghost all = scope_counts(rows);
        let mut counts: Vec<ScopeCount> = Vec::new();
        let mut keys: Vec<Key> = Vec::new();
        let mut i: usize = 0;
        while i < scopes.len()
            invariant
                i <= scopes.len(),
                self@.wf(),
                rows == self@.memories,
                texts(scopes@) == scopes_in(rows),
                all == scope_counts(rows),
                all.len() == scopes@.len(),
                counts@.len() == i,
                keys@.len() == i,
                forall|k: int| 0 <= k < i ==> (#[trigger] counts@[k])@ == all[k],
                forall|k: int| 0 <= k < i ==> #[trigger] keys@[k] == count_key(all[k].count),
            decreases scopes.len() - i,
        {
            assert(scopes_in(rows)[i as int] == scopes@[i as int]@);
            let f = RowFilter::of(Some(scopes[i].as_str()));
            let count: i64 = self.count_i64(&Condition::Rows(f));
            keys.push((-(count as i128), 0));
            counts.push(ScopeCount { scope: scopes[i].clone(), count });
            i = i + 1;
        }
        assert(scope_counts_of(counts@) =~= all);
        let ghost keyseq = all.map_values(|x: ScopeCountView| count_key(x.count));
        assert(keys@ =~= keyseq);
        let order = sort_order(&keys);
        let mut by_scope: Vec<ScopeCount> = Vec::new();
        let mut j: usize = 0;
        let ghost goal = fullest_scopes(rows);
        while j < order.len()
            invariant
                j <= order.len(),
                all == scope_counts_of(counts@),
                forall|k: int| 0 <= k < order@.len() ==> #[trigger] order@[k] < counts@.len(),
                goal == picked(all, positions(order@)),
                by_scope@.len() == j,
                forall|k: int| 0 <= k < j ==> (#[trigger] by_scope@[k])@ == goal[k],
            decreases order.len() - j,
        {
            let k: usize = order[j];
            assert(goal[j as int] == counts@[k as int]@);
            by_scope.push(ScopeCount { scope: counts[k].scope.clone(), count: counts[k].count });
            j = j + 1;
        }
        assert(scope_counts_of(by_scope@) =~= goal);
        proof {
            counts_fit(rows, self@.next_id as int, rows_asked(None, None));
        }
        Stats { total: self.memories.len() as i64, by_scope }
    }

    fn unknown_words(&self) -> (r: Vec<String>)
        ensures
            texts(r@) == words_in(self@.memories),
    {
        let ghost rows = self@.memories;
        let mut r: Vec<String> = Vec::new();
        let mut i: usize = 0;
        assert(texts(r@) =~= words_in(rows.take(0)));
        while i < self.memories.len()
            invariant
                i <= self.memories.len(),
                rows == self@.memories,
                texts(r@) == words_in(rows.take(i as int)),
            decreases self.memories.len() - i,
        {
            assert(rows.take(i + 1).drop_last() =~= rows.take(i as int));
            assert(rows[i as int] == self.memories@[i as int]@);
            if let Some(w) = &self.memories[i].word {
                add_once(&mut r, w.as_str());
            }
            i = i + 1;
        }
        assert(rows.take(i as int) =~= rows);
        r
    }

    fn kinds(&self, scope: Option<&str>) -> (r: Vec<KindCount>)
        requires
            self@.wf(),
        ensures
            kind_counts_of(r@) == fullest_kinds(self@.memories, opt_str_view(scope)),
    {
        let ghost rows = self@.memories;
        let ghost s = opt_str_view(scope);
        let kinds: [MemoryKind; 5] = [
            MemoryKind::Decision,
            MemoryKind::Event,
            MemoryKind::Note,
            MemoryKind::Skill,
            MemoryKind::Summary,
        ];
        assert(kinds@ =~= all_kinds());
        let words = self.unknown_words();
        let ghost classes = stored_kinds(rows);
        let mut counts: Vec<KindCount> = Vec::new();
        let mut keys: Vec<Key> = Vec::new();
        let mut i: u128 = 0;
        assert(kind_counts_of(counts@) =~= kind_counts(rows, s, 0));
        while i < 5 || i - 5 < words.len() as u128
            invariant
                i <= classes.len(),
                classes.len() == 5 + words.len(),
                self@.wf(),
                rows == self@.memories,
                s == opt_str_view(scope),
                kinds@ == all_kinds(),
                kinds@.len() == 5,
                texts(words@) == words_in(rows),
                classes == stored_kinds(rows),
                kind_counts_of(counts@) == kind_counts(rows, s, i as int),
                keys@.len() == counts@.len(),
                forall|k: int| 0 <= k < keys@.len() ==> #[trigger] keys@[k] == count_key(counts@[k]@.count),
            decreases classes.len() - i,
        {
            let mut f = RowFilter::of(scope);
            let mut shown = MemoryKind::Note;
            if i < 5 {
                shown = kinds[i as usize];
                f.kind = Some(shown);
                assert(classes[i as int] == StoredKind::Known(shown));
            } else {
                f.word = Some(words[(i - 5) as usize].clone());
                assert(words@[i - 5]@ == texts(words@)[i - 5]);
                assert(classes[i as int] == StoredKind::Word(words@[i - 5]@));
            }
            let count: i64 = self.count_i64(&Condition::Rows(f));
            if count != 0 {
                let ghost before = kind_counts_of(counts@);
                keys.push((-(count as i128), 0));
                let c = KindCount { kind: shown, count };
                let ghost v = c@;
                counts.push(c);
                assert(kind_counts_of(counts@) =~= before.push(v));
            }
            i = i + 1;
        }
        let ghost all = kind_counts(rows, s, classes.len() as int);
        let ghost keyseq = all.map_values(|x: KindCountView| count_key(x.count));
        assert(keys@ =~= keyseq) by {
            assert forall|k: int| 0 <= k < keys@.len() implies keys@[k] == keyseq[k] by {
                assert(all[k] == counts@[k]@);
            }
        }
        let order = sort_order(&keys);
        let ghost goal = fullest_kinds(rows, s);
        let mut r: Vec<KindCount> = Vec::new();
        let mut j: usize = 0;
        while j < order.len()
            invariant
                j <= order.len(),
                all == kind_counts_of(counts@),
                forall|k: int| 0 <= k < order@.len() ==> #[trigger] order@[k] < counts@.len(),
                goal == picked(all, positions(order@)),
                r@.len() == j,
                forall|k: int| 0 <= k < j ==> (#[trigger] r@[k])@ == goal[k],
            decreases order.len() - j,
        {
            let k: usize = order[j];
            assert(goal[j as int] == counts@[k as int]@);
            r.push(KindCount { kind: counts[k].kind, count: counts[k].count });
            j = j + 1;
        }
        assert(kind_counts_of(r@) =~= goal);
        r
    }

    fn made(&self, scope: Option<&str>, since: Option<i64>, before: Option<i64>) -> (r: i64)
        requires
            self@.wf(),
        ensures
            r == number_of(self@.memories, made_between(opt_str_view(scope), since, before)),
    {
        let mut f = RowFilter::of(scope);
        f.since = since;
        f.before = before;
        self.count_i64(&Condition::Rows(f))
    }

    /// The state of the memory. A scope narrows down everything but the total and the counts by
    /// scope.
    pub fn snapshot(&self, scope: Option<&str>, now: i64, max_age_secs: i64, importance_floor: Real) -> (r: Snapshot)
        requires
            self@.wf(),
            i64::MIN <= now - max_age_secs <= i64::MAX,
            now - 30 * 86_400 >= i64::MIN,
        ensures
            is_snapshot(self@.memories, opt_str_view(scope), now, max_age_secs, importance_floor, r),
    {
        let base = self.stats();
        let by_kind = self.kinds(scope);
        let day: i64 = now - 86_400;
        let week: i64 = now - 604_800;
        let month: i64 = now - 2_592_000;
        let age = AgeBuckets {
            last_day: self.made(scope, Some(day), None),
            last_week: self.made(scope, Some(week), Some(day)),
            last_month: self.made(scope, Some(month), Some(week)),
            older: self.made(scope, None, Some(month)),
        };
        let mut e = RowFilter::of(scope);
        e.embedded = Some(true);
        let embedding = EmbeddingCoverage {
            embedded: self.count_i64(&Condition::Rows(e)),
            total: self.count_i64(&Condition::Rows(RowFilter::of(scope))),
        };
        let mut f = RowFilter::of(scope);
        f.foldable = true;
        f.folded = Some(false);
        let consolidation_candidates: i64 = self.count_i64(&Condition::Rows(f));
        let prune_candidates: i64 = self.count_prune_candidates(scope, max_age_secs, importance_floor, now);
        Snapshot {
            total: base.total,
            by_scope: base.by_scope,
            by_kind,
            age,
            embedding,
            consolidation_candidates,
            prune_candidates,
        }
    }
}

proof fn ages_add_up(rows: Seq<MemoryRowView>, scope: Option<Seq<char>>, a: i64, b: i64, c: i64)
    requires
        a <= b <= c,
    ensures
        number_of(rows, made_between(scope, Some(c), None)) + number_of(
            rows,
            made_between(scope, Some(b), Some(c)),
        ) + number_of(rows, made_between(scope, Some(a), Some(b))) + number_of(
            rows,
            made_between(scope, None, Some(a)),
        ) == number_of(rows, rows_asked(scope, None)),
    decreases rows.len(),
{
    if rows.len() > 0 {
        ages_add_up(rows.drop_last(), scope, a, b, c);
    }
}

/// Every memory is counted in exactly one span of age.
pub proof fn every_memory_has_one_age(rows: Seq<MemoryRowView>, scope: Option<Seq<char>>, now: i64)
    requires
        now - 30 * 86_400 >= i64::MIN,
    ensures
        ({
            let day = days_ago(now, 1);
            let week = days_ago(now, 7);
            let month = days_ago(now, 30);
            number_of(rows, made_between(scope, day, None)) + number_of(rows, made_between(scope, week, day))
                + number_of(rows, made_between(scope, month, week)) + number_of(
                rows,
                made_between(scope, None, month),
            ) == number_of(rows, rows_asked(scope, None))
        }),
{
    ages_add_up(
        rows,
        scope,
        (now - 30 * 86_400) as i64,
        (now - 7 * 86_400) as i64,
        (now - 86_400) as i64,
    );
}

// ---------------------------------------------------------------------------
// Sums
// ---------------------------------------------------------------------------

/// The numbers added up.
pub open spec fn sum(counts: Seq<int>) -> int
    decreases counts.len(),
{
    if counts.len() == 0 {
        0
    } else {
        sum(counts.drop_last()) + counts.last()
    }
}

proof fn sum_without(s: Seq<int>, k: int)
    requires
        0 <= k < s.len(),
    ensures
        sum(s) == sum(s.remove(k)) + s[k],
    decreases s.len(),
{
    if k == s.len() - 1 {
        assert(s.remove(k) =~= s.drop_last());
    } else {
        let d = s.drop_last();
        sum_without(d, k);
        assert(s.remove(k).drop_last() =~= d.remove(k));
        assert(s.remove(k).last() == s.last());
    }
}

/// Numbers in another order have the same sum.
proof fn sum_reordered(s: Seq<int>, order: Seq<int>)
    requires
        order.len() == s.len(),
        order.no_duplicates(),
        forall|x: int| #[trigger] order.contains(x) <==> 0 <= x < s.len(),
    ensures
        sum(picked(s, order)) == sum(s),
    decreases s.len(),
{
    let p = picked(s, order);
    if s.len() > 0 {
        let n = s.len() - 1;
        assert(order.contains(n));
        let k = order.index_of(n);
        let rest = order.remove(k);
        let d = s.drop_last();
        assert(rest.no_duplicates()) by {
            assert forall|a: int, b: int| 0 <= a < rest.len() && 0 <= b < rest.len() && a != b implies rest[a]
                != rest[b] by {
                let x = if a < k { a } else { a + 1 };
                let y = if b < k { b } else { b + 1 };
                assert(rest[a] == order[x] && rest[b] == order[y]);
            }
        }
        assert forall|x: int| #[trigger] rest.contains(x) <==> 0 <= x < d.len() by {
            if rest.contains(x) {
                let a = rest.index_of(x);
                let b = if a < k { a } else { a + 1 };
                assert(order[b] == x);
                assert(order.contains(x));
                assert(order[k] == n);
            }
            if 0 <= x < d.len() {
                assert(order.contains(x));
                let b = order.index_of(x);
                let a = if b < k { b } else { b - 1 };
                assert(rest[a] == x);
            }
        }
        sum_reordered(d, rest);
        sum_without(p, k);
        assert(p.remove(k) =~= picked(d, rest)) by {
            assert forall|a: int| 0 <= a < rest.len() implies p.remove(k)[a] == picked(d, rest)[a] by {
                assert(rest.contains(rest[a]));
            }
        }
    } else {
        assert(p =~= s);
    }
}

/// How many memories each part of a list has.
spec fn part_counts<A>(rows: Seq<MemoryRowView>, parts: Seq<A>, of: spec_fn(A) -> ConditionView) -> Seq<int> {
    parts.map_values(|a: A| number_of(rows, of(a)))
}

/// Each memory that meets a condition belongs to one part, and no other memory to any.
spec fn parts_fit<A>(r: MemoryRowView, parts: Seq<A>, of: spec_fn(A) -> ConditionView, c: ConditionView) -> bool {
    &&& c.met(r) ==> exists|i: int| 0 <= i < parts.len() && #[trigger] of(parts[i]).met(r)
    &&& forall|i: int| 0 <= i < parts.len() && #[trigger] of(parts[i]).met(r) ==> c.met(r)
    &&& forall|i: int, j: int|
        0 <= i < parts.len() && 0 <= j < parts.len() && #[trigger] of(parts[i]).met(r) && #[trigger] of(parts[j]).met(r)
            ==> i == j
}

/// A number that grows by one at one place makes the sum grow by one.
proof fn sum_raised(a: Seq<int>, b: Seq<int>, at: int)
    requires
        a.len() == b.len(),
        forall|i: int| 0 <= i < a.len() && i != at ==> a[i] == b[i],
        0 <= at < a.len() ==> b[at] == a[at] + 1,
    ensures
        sum(b) == sum(a) + (if 0 <= at < a.len() {
            1int
        } else {
            0
        }),
    decreases a.len(),
{
    if a.len() > 0 {
        sum_raised(a.drop_last(), b.drop_last(), at);
    }
}

proof fn zero_sum(a: Seq<int>)
    requires
        forall|i: int| 0 <= i < a.len() ==> a[i] == 0,
    ensures
        sum(a) == 0,
    decreases a.len(),
{
    if a.len() > 0 {
        zero_sum(a.drop_last());
    }
}

/// Parts into which the memories fall are counted once each.
proof fn parts_add_up<A>(rows: Seq<MemoryRowView>, parts: Seq<A>, of: spec_fn(A) -> ConditionView, c: ConditionView)
    requires
        forall|k: int| 0 <= k < rows.len() ==> parts_fit(#[trigger] rows[k], parts, of, c),
    ensures
        sum(part_counts(rows, parts, of)) == number_of(rows, c),
    decreases rows.len(),
{
    let now = part_counts(rows, parts, of);
    if rows.len() == 0 {
        zero_sum(now);
    } else {
        let d = rows.drop_last();
        let r = rows.last();
        assert forall|k: int| 0 <= k < d.len() implies parts_fit(#[trigger] d[k], parts, of, c) by {
            assert(d[k] == rows[k]);
        }
        parts_add_up(d, parts, of, c);
        let before = part_counts(d, parts, of);
        assert(parts_fit(rows[rows.len() - 1], parts, of, c));
        if c.met(r) {
            let at = choose|i: int| 0 <= i < parts.len() && #[trigger] of(parts[i]).met(r);
            assert forall|i: int| 0 <= i < before.len() && i != at implies before[i] == now[i] by {
                assert(!of(parts[i]).met(r));
            }
            sum_raised(before, now, at);
        } else {
            assert forall|i: int| 0 <= i < before.len() implies before[i] == now[i] by {
                assert(!of(parts[i]).met(r));
            }
            sum_raised(before, now, -1);
        }
    }
}

proof fn words_are_listed_once(rows: Seq<MemoryRowView>)
    ensures
        in_text_order(words_in(rows)),
        forall|k: int| 0 <= k < rows.len() && (#[trigger] rows[k]).word is Some ==> words_in(rows).contains(rows[k].word->0),
    decreases rows.len(),
{
    if rows.len() > 0 {
        let d = rows.drop_last();
        words_are_listed_once(d);
        if let Some(w) = rows.last().word {
            with_text_facts(words_in(d), w);
        }
        assert forall|k: int| 0 <= k < rows.len() && (#[trigger] rows[k]).word is Some implies words_in(rows).contains(
            rows[k].word->0,
        ) by {
            if k < d.len() {
                assert(d[k] == rows[k]);
                assert(words_in(d).contains(d[k].word->0));
            }
        }
    }
}

proof fn ordered_texts_differ(list: Seq<Seq<char>>, i: int, j: int)
    requires
        in_text_order(list),
        0 <= i < list.len(),
        0 <= j < list.len(),
        list[i] == list[j],
    ensures
        i == j,
{
    text_order_is_total(list[i], list[j]);
    if i < j {
        assert(text_before(list[i], list[j]));
    } else if j < i {
        assert(text_before(list[j], list[i]));
    }
}

/// The sum of the counts of all categories that have any is that of all categories.
proof fn counted_kinds(rows: Seq<MemoryRowView>, scope: Option<Seq<char>>, n: int)
    requires
        0 <= n <= stored_kinds(rows).len(),
    ensures
        sum(kind_counts(rows, scope, n).map_values(|c: KindCountView| c.count)) == sum(
            part_counts(rows, stored_kinds(rows).take(n), |k: StoredKind| of_kind(scope, k)),
        ),
    decreases n,
{
    let count = |c: KindCountView| c.count;
    let of = |k: StoredKind| of_kind(scope, k);
    let all = stored_kinds(rows);
    let parts = part_counts(rows, all.take(n), of);
    if n > 0 {
        counted_kinds(rows, scope, n - 1);
        assert(parts.drop_last() =~= part_counts(rows, all.take(n - 1), of));
        let k = kind_counts(rows, scope, n).map_values(count);
        let before = kind_counts(rows, scope, n - 1).map_values(count);
        if number_of(rows, of_kind(scope, all[n - 1])) != 0 {
            assert(k.drop_last() =~= before);
        }
    } else {
        assert(parts =~= Seq::<int>::empty());
    }
}

proof fn kinds_fit(rows: Seq<MemoryRowView>, scope: Option<Seq<char>>, k: int)
    requires
        0 <= k < rows.len(),
    ensures
        parts_fit(rows[k], stored_kinds(rows), |c: StoredKind| of_kind(scope, c), rows_asked(scope, None)),
{
    let all = stored_kinds(rows);
    let of = |c: StoredKind| of_kind(scope, c);
    let r = rows[k];
    let words = words_in(rows);
    words_are_listed_once(rows);
    let place: int = match r.word {
        Some(w) => 5 + words.index_of(w),
        None => match r.kind {
            MemoryKind::Decision => 0,
            MemoryKind::Event => 1,
            MemoryKind::Note => 2,
            MemoryKind::Skill => 3,
            MemoryKind::Summary => 4,
        },
    };
    assert(all.len() == 5 + words.len());
    assert forall|i: int| 0 <= i < all.len() implies #[trigger] of(all[i]).met(r) == (rows_asked(scope, None).met(r) && i
        == place) by {
        if i < 5 {
            assert(all[i] == StoredKind::Known(all_kinds()[i]));
        } else {
            assert(all[i] == StoredKind::Word(words[i - 5]));
            if let Some(w) = r.word {
                assert(words.contains(w));
                if words[i - 5] == w {
                    ordered_texts_differ(words, i - 5, words.index_of(w));
                }
            }
        }
    }
    if rows_asked(scope, None).met(r) {
        if let Some(w) = r.word {
            assert(words.contains(w));
        }
        assert(of(all[place]).met(r));
    }
}

proof fn scopes_fit(rows: Seq<MemoryRowView>, k: int)
    requires
        0 <= k < rows.len(),
    ensures
        parts_fit(rows[k], scopes_in(rows), |s: Seq<char>| rows_asked(Some(s), None), rows_asked(None, None)),
{
    let all = scopes_in(rows);
    let of = |s: Seq<char>| rows_asked(Some(s), None);
    let r = rows[k];
    scopes_are_listed_once(rows);
    assert(all.contains(r.scope));
    let place = all.index_of(r.scope);
    assert forall|i: int| 0 <= i < all.len() implies #[trigger] of(all[i]).met(r) == (i == place) by {
        assert(seq![all[i]].contains(r.scope) == (all[i] == r.scope)) by {
            assert(seq![all[i]][0] == all[i]);
        }
        if all[i] == r.scope {
            ordered_texts_differ(all, i, place);
        }
    }
    assert(of(all[place]).met(r));
}

/// The counts by scope add up to all memories, and the counts by category to the memories of the
/// scope that is asked for.
pub proof fn every_memory_is_counted_once(rows: Seq<MemoryRowView>, scope: Option<Seq<char>>)
    ensures
        sum(fullest_scopes(rows).map_values(|c: ScopeCountView| c.count)) == rows.len(),
        sum(fullest_kinds(rows, scope).map_values(|c: KindCountView| c.count)) == number_of(
            rows,
            rows_asked(scope, None),
        ),
{
    let count = |c: ScopeCountView| c.count;
    let of = |s: Seq<char>| rows_asked(Some(s), None);
    assert forall|k: int| 0 <= k < rows.len() implies parts_fit(
        #[trigger] rows[k],
        scopes_in(rows),
        of,
        rows_asked(None, None),
    ) by {
        scopes_fit(rows, k);
    }
    parts_add_up(rows, scopes_in(rows), of, rows_asked(None, None));
    let c = scope_counts(rows);
    let keys = c.map_values(|x: ScopeCountView| count_key(x.count));
    let order = sorted_order(keys, keys.len() as int);
    sorting_is_a_permutation(keys, keys.len() as int);
    assert(c.map_values(count) =~= part_counts(rows, scopes_in(rows), of));
    sum_reordered(c.map_values(count), order);
    assert(picked(c, order).map_values(count) =~= picked(c.map_values(count), order)) by {
        assert forall|a: int| 0 <= a < order.len() implies 0 <= #[trigger] order[a] < c.len() by {
            assert(order.contains(order[a]));
        }
    }
    all_rows_asked(rows);

    let kind_count = |x: KindCountView| x.count;
    let of_class = |k: StoredKind| of_kind(scope, k);
    let classes = stored_kinds(rows);
    assert forall|k: int| 0 <= k < rows.len() implies parts_fit(
        #[trigger] rows[k],
        classes,
        of_class,
        rows_asked(scope, None),
    ) by {
        kinds_fit(rows, scope, k);
    }
    parts_add_up(rows, classes, of_class, rows_asked(scope, None));
    counted_kinds(rows, scope, classes.len() as int);
    assert(classes.take(classes.len() as int) =~= classes);
    let kc = kind_counts(rows, scope, classes.len() as int);
    let kind_keys = kc.map_values(|x: KindCountView| count_key(x.count));
    let kind_order = sorted_order(kind_keys, kind_keys.len() as int);
    sorting_is_a_permutation(kind_keys, kind_keys.len() as int);
    sum_reordered(kc.map_values(kind_count), kind_order);
    assert(picked(kc, kind_order).map_values(kind_count) =~= picked(kc.map_values(kind_count), kind_order)) by {
        assert forall|a: int| 0 <= a < kind_order.len() implies 0 <= #[trigger] kind_order[a] < kc.len() by {
            assert(kind_order.contains(kind_order[a]));
        }
    }
}

proof fn all_rows_asked(rows: Seq<MemoryRowView>)
    ensures
        number_of(rows, rows_asked(None, None)) == rows.len(),
    decreases rows.len(),
{
    if rows.len() > 0 {
        all_rows_asked(rows.drop_last());
    }
}

} // verus!
