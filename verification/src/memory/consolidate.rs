//! Folding scattered memories into summaries.
use crate::memory::error::MemoryError;
use crate::memory::model::{folds_of, ConsolidationRow, ConsolidationRowView, MemoryKind};
use crate::memory::queries::{
    conditions_split_the_table, fold_of, foldable_rows, met_rows, row_keys, selected, selected_rows_meet,
    ConditionView, RowOrder,
};
use crate::memory::rows::{rows_changed, with_memory, RowChangeView};
use crate::memory::store::{MemoryRowView, Store, StoreView};
use crate::order::{rank_of, sorted_order, sorting_is_a_permutation, Real};
use crate::text::{clone_opt, decimal, decimal_of, joined, push_text, texts};
use vstd::prelude::*;

verus! {

/// What condenses some texts into one.
pub trait Summarizer {
    /// It may say this of those texts: a text, or why there is none.
    spec fn says(&self, given: Seq<Seq<char>>, answer: Result<Seq<char>, MemoryError>) -> bool;

    fn summarize(&self, given: &[String]) -> (r: Result<String, MemoryError>)
        ensures
            self.says(texts(given@), said_of(r)),
    ;
}

/// The mathematical form of what a summarizer says.
pub open spec fn said_of(r: Result<String, MemoryError>) -> Result<Seq<char>, MemoryError> {
    match r {
        Ok(t) => Ok(t@),
        Err(e) => Err(e),
    }
}

/// Lines the texts up behind a heading.
pub struct ConcatSummarizer;

fn line_up(given: &[String]) -> (r: String)
    ensures
        r@ == joined(texts(given@), " / "@),
{
    let ghost all = texts(given@);
    let mut r = String::new();
    let n: usize = given.len();
    let mut i: usize = 0;
    assert(r@ =~= joined(all.take(0), " / "@));
    while i < n
        invariant
            i <= n,
            n == given@.len(),
            all == texts(given@),
            r@ == joined(all.take(i as int), " / "@),
        decreases n - i,
    {
        assert(all.take(i + 1).drop_last() =~= all.take(i as int));
        assert(all[i as int] == given@[i as int]@);
        if i > 0 {
            r.append(" / ");
        }
        r.append(given[i].as_str());
        i = i + 1;
        assert(r@ =~= joined(all.take(i as int), " / "@));
    }
    assert(all.take(i as int) =~= all);
    r
}

impl Summarizer for ConcatSummarizer {
    open spec fn says(&self, given: Seq<Seq<char>>, answer: Result<Seq<char>, MemoryError>) -> bool {
        answer == Ok::<Seq<char>, MemoryError>("[摘要] "@ + joined(given, " / "@))
    }

    fn summarize(&self, given: &[String]) -> (r: Result<String, MemoryError>) {
        let mut s = String::from_str("[摘要] ");
        let t = line_up(given);
        s.append(t.as_str());
        Ok(s)
    }
}

/// Says only how many texts there were.
pub struct MockSummarizer;

impl Summarizer for MockSummarizer {
    open spec fn says(&self, given: Seq<Seq<char>>, answer: Result<Seq<char>, MemoryError>) -> bool {
        answer == Ok::<Seq<char>, MemoryError>("SUMMARY("@ + decimal(given.len()) + ")"@)
    }

    fn summarize(&self, given: &[String]) -> (r: Result<String, MemoryError>) {
        let mut s = String::from_str("SUMMARY(");
        let n: usize = given.len();
        let d = decimal_of(n as u64);
        s.append(d.as_str());
        s.append(")");
        Ok(s)
    }
}

/// How many memories make up a summary where nothing else is said.
pub const DEFAULT_BATCH_SIZE: usize = 20;

/// How memories are folded.
#[derive(Debug, Clone, Copy, PartialEq, Eq, Structural)]
pub struct ConsolidatePolicy {
    /// At most so many memories go into one summary.
    pub batch_size: usize,
}

impl Default for ConsolidatePolicy {
    fn default() -> (r: ConsolidatePolicy)
        ensures
            r.batch_size == DEFAULT_BATCH_SIZE,
    {
        ConsolidatePolicy { batch_size: DEFAULT_BATCH_SIZE }
    }
}

/// The ids of the memories that would make up each summary.
#[derive(Debug, Clone, PartialEq, Eq)]
pub struct ConsolidatePlan {
    pub batches: Vec<Vec<i64>>,
}

/// A sequence in pieces of the given size; the last one may be shorter.
pub open spec fn pieces<T>(s: Seq<T>, size: nat) -> Seq<Seq<T>>
    decreases s.len(),
{
    if s.len() == 0 || size == 0 {
        Seq::empty()
    } else if s.len() <= size {
        seq![s]
    } else {
        seq![s.take(size as int)] + pieces(s.skip(size as int), size)
    }
}

/// The pieces in a row.
pub open spec fn rejoined<T>(p: Seq<Seq<T>>) -> Seq<T>
    decreases p.len(),
{
    if p.len() == 0 {
        Seq::empty()
    } else {
        p[0] + rejoined(p.drop_first())
    }
}

/// The size of a batch, at least one.
pub open spec fn batch_size(n: usize) -> nat {
    if n == 0 {
        1
    } else {
        n as nat
    }
}

/// The mathematical forms of batches.
pub open spec fn batches_of(v: Seq<Vec<ConsolidationRow>>) -> Seq<Seq<ConsolidationRowView>> {
    v.map_values(|b: Vec<ConsolidationRow>| folds_of(b@))
}

/// Every memory goes into one batch, in order, and no batch is empty or too large.
pub proof fn batches_cover_everything<T>(s: Seq<T>, size: nat)
    requires
        size > 0,
    ensures
        rejoined(pieces(s, size)) == s,
        pieces(s, size).len() <= s.len(),
        forall|i: int| 0 <= i < pieces(s, size).len() ==> 0 < (#[trigger] pieces(s, size)[i]).len() <= size,
    decreases s.len(),
{
    let p = pieces(s, size);
    if s.len() == 0 {
        assert(rejoined(p) =~= s);
    } else if s.len() <= size {
        assert(p.drop_first() =~= Seq::empty());
        assert(rejoined(p.drop_first()) =~= Seq::<T>::empty());
        assert(rejoined(p) =~= s);
    } else {
        let rest = s.skip(size as int);
        batches_cover_everything(rest, size);
        assert(p.drop_first() =~= pieces(rest, size));
        assert(s.take(size as int) + rest =~= s);
        assert forall|i: int| 0 <= i < p.len() implies 0 < (#[trigger] p[i]).len() <= size by {
            if i > 0 {
                assert(p[i] == pieces(rest, size)[i - 1]);
            }
        }
    }
}

fn copy_fold(r: &ConsolidationRow) -> (c: ConsolidationRow)
    ensures
        c@ == r@,
{
    ConsolidationRow {
        id: r.id,
        session_id: clone_opt(&r.session_id),
        text: r.text.clone(),
        importance: r.importance,
    }
}

/// The memories in batches of at most the given size.
pub fn plan_batches(rows: Vec<ConsolidationRow>, size: usize) -> (r: Vec<Vec<ConsolidationRow>>)
    ensures
        batches_of(r@) == pieces(folds_of(rows@), batch_size(size)),
{
    let ghost all = folds_of(rows@);
    let ghost n = batch_size(size);
    let most: usize = if size == 0 {
        1
    } else {
        size
    };
    let mut r: Vec<Vec<ConsolidationRow>> = Vec::new();
    let mut i: usize = 0;
    assert(all.skip(0) =~= all);
    assert(batches_of(r@) + pieces(all, n) =~= pieces(all, n));
    while i < rows.len()
        invariant
            i <= rows.len(),
            all == folds_of(rows@),
            n == batch_size(size),
            most == n,
            batches_of(r@) + pieces(all.skip(i as int), n) == pieces(all, n),
        decreases rows.len() - i,
    {
        let end: usize = if rows.len() - i <= most {
            rows.len()
        } else {
            i + most
        };
        let ghost rest = all.skip(i as int);
        let mut batch: Vec<ConsolidationRow> = Vec::new();
        let mut k: usize = i;
        assert(folds_of(batch@) =~= all.subrange(i as int, i as int));
        while k < end
            invariant
                i <= k <= end,
                end <= rows.len(),
                all == folds_of(rows@),
                folds_of(batch@) == all.subrange(i as int, k as int),
            decreases end - k,
        {
            let ghost before = folds_of(batch@);
            batch.push(copy_fold(&rows[k]));
            assert(folds_of(batch@) =~= before.push(all[k as int]));
            k = k + 1;
            assert(folds_of(batch@) =~= all.subrange(i as int, k as int));
        }
        let ghost done = batches_of(r@);
        let ghost piece = folds_of(batch@);
        r.push(batch);
        assert(batches_of(r@) =~= done.push(piece));
        proof {
            if rest.len() <= n {
                assert(piece =~= rest);
                assert(all.skip(end as int) =~= Seq::empty());
                assert(batches_of(r@) + pieces(all.skip(end as int), n) =~= done + pieces(rest, n));
            } else {
                assert(piece =~= rest.take(n as int));
                assert(all.skip(end as int) =~= rest.skip(n as int));
                assert(batches_of(r@) + pieces(all.skip(end as int), n) =~= done + pieces(rest, n));
            }
        }
        i = end;
    }
    assert(all.skip(i as int) =~= Seq::empty());
    assert(batches_of(r@) + pieces(all.skip(i as int), n) =~= batches_of(r@));
    r
}

// ---------------------------------------------------------------------------
// Folding
// ---------------------------------------------------------------------------

/// The largest importance, and at least zero.
pub open spec fn largest(batch: Seq<ConsolidationRowView>) -> Real
    decreases batch.len(),
{
    if batch.len() == 0 {
        Real { bits: 0 }
    } else {
        let before = largest(batch.drop_last());
        if rank_of(before) < rank_of(batch.last().importance) {
            batch.last().importance
        } else {
            before
        }
    }
}

/// The ids of a batch.
pub open spec fn ids_of(batch: Seq<ConsolidationRowView>) -> Seq<i64> {
    batch.map_values(|r: ConsolidationRowView| r.id)
}

/// The tables after a batch was folded: a summary as important as its most important part, and a
/// note of it at every part.
pub open spec fn batch_folded(
    s: StoreView,
    scope: Seq<char>,
    batch: Seq<ConsolidationRowView>,
    summary: Seq<char>,
    now: i64,
) -> StoreView {
    let t = with_memory(s, None, scope, MemoryKind::Summary, summary, largest(batch), now, None);
    StoreView { memories: rows_changed(t.memories, ids_of(batch), RowChangeView::Folded(s.next_id)), ..t }
}

/// The tables after batches were folded one by one.
pub open spec fn all_folded(
    s: StoreView,
    scope: Seq<char>,
    batches: Seq<Seq<ConsolidationRowView>>,
    said: Seq<Seq<char>>,
    now: i64,
) -> StoreView
    decreases said.len(),
{
    if said.len() == 0 {
        s
    } else {
        let k = said.len() - 1;
        batch_folded(all_folded(s, scope, batches, said.drop_last(), now), scope, batches[k], said[k], now)
    }
}

/// The batches of a scope's memories.
pub open spec fn batches_in(rows: Seq<MemoryRowView>, scope: Seq<char>, size: usize) -> Seq<Seq<ConsolidationRowView>> {
    pieces(
        selected(rows, foldable_rows(Some(scope)), RowOrder::Oldest, -1).map_values(
            |r: MemoryRowView| fold_of(r),
        ),
        batch_size(size),
    )
}

/// The texts of a batch.
pub open spec fn batch_texts(batch: Seq<ConsolidationRowView>) -> Seq<Seq<char>> {
    batch.map_values(|r: ConsolidationRowView| r.text)
}

/// The tables are those after so many batches of a scope were folded, with these summaries.
pub open spec fn folded_so_far<S: Summarizer>(
    before: StoreView,
    after: StoreView,
    scope: Seq<char>,
    size: usize,
    summarizer: S,
    said: Seq<Seq<char>>,
    now: i64,
) -> bool {
    let batches = batches_in(before.memories, scope, size);
    &&& said.len() <= batches.len()
    &&& forall|i: int| 0 <= i < said.len() ==> summarizer.says(
        batch_texts(batches[i]),
        Ok(#[trigger] said[i]),
    )
    &&& after == all_folded(before, scope, batches, said, now)
}

proof fn fewer_batches_than_rows(rows: Seq<MemoryRowView>, scope: Seq<char>, size: usize)
    ensures
        batches_in(rows, scope, size).len() <= rows.len(),
{
    let c = foldable_rows(Some(scope));
    let s = selected(rows, c, RowOrder::Oldest, -1);
    selected_rows_meet(rows, c, RowOrder::Oldest, -1);
    conditions_split_the_table(rows, c);
    batches_cover_everything(s.map_values(|r: MemoryRowView| fold_of(r)), batch_size(size));
}

impl Store {
    /// The ids of the memories that would make up each summary of a scope.
    pub fn plan_consolidation(&self, scope: &str, policy: &ConsolidatePolicy) -> (r: ConsolidatePlan)
        ensures
            r.batches@.map_values(|b: Vec<i64>| b@) == batches_in(
                self@.memories,
                scope@,
                policy.batch_size,
            ).map_values(|b: Seq<ConsolidationRowView>| ids_of(b)),
    {
        let rows = self.consolidation_candidates(scope);
        let batches = plan_batches(rows, policy.batch_size);
        let ghost all = batches_in(self@.memories, scope@, policy.batch_size);
        let mut r: Vec<Vec<i64>> = Vec::new();
        let mut i: usize = 0;
        while i < batches.len()
            invariant
                i <= batches.len(),
                all == batches_of(batches@),
                r@.len() == i,
                forall|k: int| 0 <= k < i ==> (#[trigger] r@[k])@ == ids_of(all[k]),
            decreases batches.len() - i,
        {
            assert(all[i as int] == folds_of(batches@[i as int]@));
            let ids = ids_in(&batches[i]);
            r.push(ids);
            i = i + 1;
        }
        assert(r@.map_values(|b: Vec<i64>| b@) =~= all.map_values(
            |b: Seq<ConsolidationRowView>| ids_of(b),
        ));
        ConsolidatePlan { batches: r }
    }

    /// Folds a batch into a summary, and gives the summary's id.
    pub fn fold_batch(&mut self, scope: &str, batch: &Vec<ConsolidationRow>, summary: &str, now: i64) -> (r: i64)
        requires
            old(self)@.wf(),
            old(self)@.next_id < i64::MAX,
        ensures
            final(self)@ == batch_folded(old(self)@, scope@, folds_of(batch@), summary@, now),
            r == old(self)@.next_id,
            final(self)@.wf(),
    {
        let ghost all = folds_of(batch@);
        let mut importance = Real { bits: 0 };
        let mut i: usize = 0;
        assert(all.take(0) =~= Seq::empty());
        while i < batch.len()
            invariant
                i <= batch.len(),
                all == folds_of(batch@),
                importance == largest(all.take(i as int)),
            decreases batch.len() - i,
        {
            assert(all.take(i + 1).drop_last() =~= all.take(i as int));
            assert(all[i as int] == batch@[i as int]@);
            if importance.less_than(batch[i].importance) {
                importance = batch[i].importance;
            }
            i = i + 1;
        }
        assert(all.take(i as int) =~= all);
        let id = self.insert_memory(None, scope, MemoryKind::Summary, summary, importance, now, None);
        let ids = ids_in(batch);
        self.mark_consolidated(&ids, id.0);
        id.0
    }

    /// Folds the memories of a scope into summaries, and gives the ids of the summaries. What the
    /// summarizer says decides the texts; where it fails, the batches before are folded and the
    /// others are left.
    pub fn consolidate<S: Summarizer>(
        &mut self,
        scope: &str,
        policy: &ConsolidatePolicy,
        summarizer: &S,
        now: i64,
    ) -> (r: Result<Vec<i64>, MemoryError>)
        requires
            old(self)@.wf(),
            old(self)@.next_id + old(self)@.memories.len() <= i64::MAX,
        ensures
            final(self)@.wf(),
            exists|said: Seq<Seq<char>>|
                (#[trigger] folded_so_far(
                    old(self)@,
                    final(self)@,
                    scope@,
                    policy.batch_size,
                    *summarizer,
                    said,
                    now,
                )) && ({
                    let batches = batches_in(old(self)@.memories, scope@, policy.batch_size);
                    match r {
                        Ok(ids) => said.len() == batches.len() && ids@ == Seq::new(
                            said.len(),
                            |i: int| (old(self)@.next_id + i) as i64,
                        ),
                        Err(e) => said.len() < batches.len() && summarizer.says(
                            batch_texts(batches[said.len() as int]),
                            Err(e),
                        ),
                    }
                }),
    {
        let rows = self.consolidation_candidates(scope);
        let batches = plan_batches(rows, policy.batch_size);
        let ghost all = batches_in(self@.memories, scope@, policy.batch_size);
        let ghost start = self@;
        proof {
            fewer_batches_than_rows(self@.memories, scope@, policy.batch_size);
        }
        let ghost mut said: Seq<Seq<char>> = Seq::empty();
        let mut ids: Vec<i64> = Vec::new();
        let mut i: usize = 0;
        while i < batches.len()
            invariant
                i <= batches.len(),
                start == old(self)@,
                all == batches_in(start.memories, scope@, policy.batch_size),
                all == batches_of(batches@),
                start.next_id + batches@.len() <= i64::MAX,
                self@.wf(),
                self@.next_id == start.next_id + i,
                said.len() == i,
                folded_so_far(start, self@, scope@, policy.batch_size, *summarizer, said, now),
                ids@.len() == i,
                forall|k: int| 0 <= k < i ==> #[trigger] ids@[k] == start.next_id + k,
            decreases batches.len() - i,
        {
            assert(all[i as int] == folds_of(batches@[i as int]@));
            let given = texts_in(&batches[i]);
            match summarizer.summarize(given.as_slice()) {
                Err(e) => {
                    return Err(e);
                },
                Ok(text) => {
                    let id: i64 = self.fold_batch(scope, &batches[i], text.as_str(), now);
                    proof {
                        let before = said;
                        said = said.push(text@);
                        assert(said.drop_last() =~= before);
                        assert forall|k: int| 0 <= k < said.len() implies summarizer.says(
                            batch_texts(all[k]),
                            Ok(#[trigger] said[k]),
                        ) by {
                            if k < before.len() {
                                assert(said[k] == before[k]);
                            }
                        }
                    }
                    ids.push(id);
                },
            }
            i = i + 1;
        }
        assert(ids@ =~= Seq::new(said.len(), |i: int| (old(self)@.next_id + i) as i64));
        Ok(ids)
    }
}

/// The texts of a batch, as they are given to a summarizer.
pub fn texts_in(batch: &Vec<ConsolidationRow>) -> (r: Vec<String>)
    ensures
        texts(r@) == batch_texts(folds_of(batch@)),
{
    let ghost all = batch_texts(folds_of(batch@));
    let mut r: Vec<String> = Vec::new();
    let mut i: usize = 0;
    assert(texts(r@) =~= all.take(0));
    while i < batch.len()
        invariant
            i <= batch.len(),
            all == batch_texts(folds_of(batch@)),
            texts(r@) == all.take(i as int),
        decreases batch.len() - i,
    {
        assert(all[i as int] == batch@[i as int]@.text);
        push_text(&mut r, batch[i].text.as_str());
        i = i + 1;
        assert(texts(r@) =~= all.take(i as int));
    }
    assert(all.take(i as int) =~= all);
    r
}

fn ids_in(batch: &Vec<ConsolidationRow>) -> (r: Vec<i64>)
    ensures
        r@ == ids_of(folds_of(batch@)),
{
    let ghost all = folds_of(batch@);
    let mut r: Vec<i64> = Vec::new();
    let mut i: usize = 0;
    while i < batch.len()
        invariant
            i <= batch.len(),
            all == folds_of(batch@),
            r@.len() == i,
            forall|k: int| 0 <= k < i ==> #[trigger] r@[k] == all[k].id,
        decreases batch.len() - i,
    {
        assert(all[i as int] == batch@[i as int]@);
        r.push(batch[i].id);
        i = i + 1;
    }
    assert(r@ =~= ids_of(all));
    r
}

// ---------------------------------------------------------------------------
// What folding leaves behind
// ---------------------------------------------------------------------------

proof fn folding_marks(
    s: StoreView,
    scope: Seq<char>,
    batches: Seq<Seq<ConsolidationRowView>>,
    said: Seq<Seq<char>>,
    now: i64,
)
    requires
        said.len() <= batches.len(),
    ensures
        ({
            let a = s.memories;
            let b = all_folded(s, scope, batches, said, now).memories;
            &&& b.len() == a.len() + said.len()
            &&& forall|i: int| a.len() <= i < b.len() ==> (#[trigger] b[i]).kind is Summary
            &&& forall|i: int|
                0 <= i < a.len() ==> (#[trigger] b[i]).id == a[i].id && b[i].kind == a[i].kind && b[i].word == a[i].word
                    && b[i].scope
                    == a[i].scope && b[i].text == a[i].text
            &&& forall|i: int|
                0 <= i < a.len() && a[i].consolidated_into is Some ==> (#[trigger] b[i]).consolidated_into is Some
            &&& forall|i: int, k: int|
                0 <= i < a.len() && 0 <= k < said.len() && #[trigger] ids_of(batches[k]).contains(a[i].id)
                    ==> (#[trigger] b[i]).consolidated_into is Some
        }),
    decreases said.len(),
{
    if said.len() > 0 {
        let before = said.drop_last();
        let k = said.len() - 1;
        folding_marks(s, scope, batches, before, now);
        let t = all_folded(s, scope, batches, before, now);
        let u = with_memory(t, None, scope, MemoryKind::Summary, said[k], largest(batches[k]), now, None);
        let a = s.memories;
        let b = all_folded(s, scope, batches, said, now).memories;
        assert(u.memories.len() == t.memories.len() + 1);
        assert(b == rows_changed(u.memories, ids_of(batches[k]), RowChangeView::Folded(t.next_id)));
        assert forall|i: int| 0 <= i < t.memories.len() implies (#[trigger] b[i]).id == t.memories[i].id && b[i].kind
            == t.memories[i].kind && b[i].word == t.memories[i].word && b[i].scope == t.memories[i].scope && b[i].text == t.memories[i].text && (
        t.memories[i].consolidated_into is Some ==> b[i].consolidated_into is Some) && (ids_of(
            batches[k],
        ).contains(t.memories[i].id) ==> b[i].consolidated_into is Some) by {
            assert(u.memories[i] == t.memories[i]);
        }
        assert forall|i: int, j: int|
            0 <= i < a.len() && 0 <= j < said.len() && #[trigger] ids_of(batches[j]).contains(a[i].id) implies (
        #[trigger] b[i]).consolidated_into is Some by {
            assert(t.memories[i].id == a[i].id);
            if j < k {
                assert(t.memories[i].consolidated_into is Some);
            }
        }
        assert forall|i: int| a.len() <= i < b.len() implies (#[trigger] b[i]).kind is Summary by {
            if i < t.memories.len() {
                assert(t.memories[i].kind is Summary);
            } else {
                assert(u.memories[i].kind is Summary);
            }
        }
    }
}

proof fn piece_holding<T>(s: Seq<T>, size: nat, p: int) -> (at: (int, int))
    requires
        size > 0,
        0 <= p < s.len(),
    ensures
        0 <= at.0 < pieces(s, size).len(),
        0 <= at.1 < pieces(s, size)[at.0].len(),
        pieces(s, size)[at.0][at.1] == s[p],
    decreases s.len(),
{
    if s.len() <= size {
        (0, p)
    } else if p < size {
        assert(s.take(size as int)[p] == s[p]);
        (0, p)
    } else {
        let rest = s.skip(size as int);
        let at = piece_holding(rest, size, p - size);
        assert(pieces(s, size)[at.0 + 1] == pieces(rest, size)[at.0]);
        (at.0 + 1, at.1)
    }
}

proof fn met_row_is_listed(rows: Seq<MemoryRowView>, c: ConditionView, i: int) -> (j: int)
    requires
        0 <= i < rows.len(),
        c.met(rows[i]),
    ensures
        0 <= j < met_rows(rows, c).len(),
        met_rows(rows, c)[j] == rows[i],
    decreases rows.len(),
{
    let d = rows.drop_last();
    if i == rows.len() - 1 {
        met_rows(d, c).len() as int
    } else {
        met_row_is_listed(d, c, i)
    }
}

proof fn unmet_everywhere(rows: Seq<MemoryRowView>, c: ConditionView)
    requires
        forall|i: int| 0 <= i < rows.len() ==> !c.met(#[trigger] rows[i]),
    ensures
        met_rows(rows, c).len() == 0,
    decreases rows.len(),
{
    if rows.len() > 0 {
        let d = rows.drop_last();
        assert forall|i: int| 0 <= i < d.len() implies !c.met(#[trigger] d[i]) by {
            assert(d[i] == rows[i]);
        }
        unmet_everywhere(d, c);
        assert(!c.met(rows[rows.len() - 1]));
    }
}

/// Once every batch of a scope is folded, the scope has nothing left to fold, and no memory's text
/// was lost.
pub proof fn folding_leaves_nothing_to_fold(
    s: StoreView,
    scope: Seq<char>,
    size: usize,
    said: Seq<Seq<char>>,
    now: i64,
)
    requires
        said.len() == batches_in(s.memories, scope, size).len(),
    ensures
        ({
            let t = all_folded(s, scope, batches_in(s.memories, scope, size), said, now);
            &&& met_rows(t.memories, foldable_rows(Some(scope))).len() == 0
            &&& batches_in(t.memories, scope, size).len() == 0
            &&& forall|i: int|
                0 <= i < s.memories.len() ==> (#[trigger] t.memories[i]).id == s.memories[i].id
                    && t.memories[i].text == s.memories[i].text
        }),
{
    let batches = batches_in(s.memories, scope, size);
    let t = all_folded(s, scope, batches, said, now);
    let a = s.memories;
    let b = t.memories;
    let c = foldable_rows(Some(scope));
    folding_marks(s, scope, batches, said, now);
    let m = met_rows(a, c);
    let keys = row_keys(RowOrder::Oldest, m);
    let order = sorted_order(keys, keys.len() as int);
    sorting_is_a_permutation(keys, keys.len() as int);
    let chosen = selected(a, c, RowOrder::Oldest, -1);
    let folds = chosen.map_values(|r: MemoryRowView| fold_of(r));
    assert forall|i: int| 0 <= i < b.len() implies !c.met(#[trigger] b[i]) by {
        if c.met(b[i]) {
            assert(i < a.len());
            assert(b[i].id == a[i].id);
            assert(c.met(a[i]));
            let j = met_row_is_listed(a, c, i);
            assert(order.contains(j));
            let p = order.index_of(j);
            assert(chosen[p] == m[j]);
            assert(folds[p].id == a[i].id);
            let at = piece_holding(folds, batch_size(size), p);
            assert(ids_of(batches[at.0])[at.1] == a[i].id);
            assert(ids_of(batches[at.0]).contains(a[i].id));
        }
    }
    unmet_everywhere(b, c);
    let rest = selected(b, c, RowOrder::Oldest, -1);
    selected_rows_meet(b, c, RowOrder::Oldest, -1);
    assert(rest.map_values(|r: MemoryRowView| fold_of(r)) =~= Seq::empty());
}

} // verus!
