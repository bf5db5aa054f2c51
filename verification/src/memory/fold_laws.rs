//! What becomes of memories that are folded into a summary.
use crate::memory::consolidate::{
    batch_folded, batch_size, batch_texts, batches_cover_everything, batches_in, ids_of, largest, pieces, rejoined,
};
use crate::memory::laws::{all_that_meet_are_selected, not_after};
use crate::memory::model::ConsolidationRowView;
use crate::memory::queries::{fold_of, foldable_rows, selected, RowOrder};
use crate::memory::store::{MemoryRowView, StoreView};
use crate::order::rank_of;
use vstd::prelude::*;

verus! {

/// A memory can be folded exactly where it is an event or a note of the scope, or of any where none is
/// named, that was not folded before.
pub proof fn what_can_be_folded(r: MemoryRowView, scope: Option<Seq<char>>)
    ensures
        foldable_rows(scope).met(r) <==> (r.kind is Event || r.kind is Note) && r.word is None && r.consolidated_into is None
            && (scope is None || scope->0 == r.scope),
{
    if scope is Some {
        let s = seq![scope->0];
        assert(s[0] == scope->0);
        if s.contains(r.scope) {
            assert(s.index_of(r.scope) == 0);
        }
    }
}

/// All batches but the last one are full.
pub proof fn batches_are_full<T>(s: Seq<T>, size: nat)
    requires
        size > 0,
    ensures
        forall|i: int| 0 <= i < pieces(s, size).len() - 1 ==> (#[trigger] pieces(s, size)[i]).len() == size,
        s.len() > 0 ==> pieces(s, size).len() > 0,
        s.len() > 0 ==> pieces(s, size)[0][0] == s[0],
    decreases s.len(),
{
    let p = pieces(s, size);
    if s.len() > size {
        let rest = s.skip(size as int);
        let q = pieces(rest, size);
        batches_are_full(rest, size);
        assert forall|i: int| 0 <= i < p.len() - 1 implies (#[trigger] p[i]).len() == size by {
            if i > 0 {
                assert(p[i] == q[i - 1]);
            }
        }
    }
}

/// Batches of no size hold one memory each.
pub proof fn batches_hold_at_least_one(n: usize)
    ensures
        batch_size(n) >= 1,
        n > 0 ==> batch_size(n) == n,
{
}

/// Every memory of the scope that can be folded is in a batch, and nothing else; they come the oldest
/// first.
pub proof fn every_foldable_memory_is_batched(rows: Seq<MemoryRowView>, scope: Seq<char>, size: usize)
    ensures
        ({
            let all = rejoined(batches_in(rows, scope, size));
            let found = selected(rows, foldable_rows(Some(scope)), RowOrder::Oldest, -1);
            &&& all == found.map_values(|r: MemoryRowView| fold_of(r))
            &&& forall|i: int|
                0 <= i < rows.len() && ((#[trigger] rows[i]).kind is Event || rows[i].kind is Note) && rows[i].word is None
                    && rows[i].consolidated_into is None && rows[i].scope == scope ==> found.contains(rows[i]) && all.contains(
                    ConsolidationRowView {
                        id: rows[i].id,
                        session_id: rows[i].session_id,
                        text: rows[i].text,
                        importance: rows[i].importance,
                    },
                )
            &&& forall|k: int|
                0 <= k < found.len() ==> rows.contains(#[trigger] found[k]) && found[k].scope == scope
                    && found[k].consolidated_into is None && (found[k].kind is Event || found[k].kind is Note)
            &&& forall|a: int, b: int|
                0 <= a < b < found.len() ==> (#[trigger] found[a]).created_at <= (#[trigger] found[b]).created_at
        }),
{
    let c = foldable_rows(Some(scope));
    let found = selected(rows, c, RowOrder::Oldest, -1);
    let folds = found.map_values(|r: MemoryRowView| fold_of(r));
    all_that_meet_are_selected(rows, c, RowOrder::Oldest, -1);
    batches_cover_everything(folds, batch_size(size));
    assert forall|i: int|
        0 <= i < rows.len() && ((#[trigger] rows[i]).kind is Event || rows[i].kind is Note) && rows[i].word is None
            && rows[i].consolidated_into is None && rows[i].scope == scope implies found.contains(rows[i]) && folds.contains(
        ConsolidationRowView {
            id: rows[i].id,
            session_id: rows[i].session_id,
            text: rows[i].text,
            importance: rows[i].importance,
        },
    ) by {
        what_can_be_folded(rows[i], Some(scope));
        let k = found.index_of(rows[i]);
        assert(folds[k] == fold_of(rows[i]));
    }
    assert forall|k: int| 0 <= k < found.len() implies rows.contains(#[trigger] found[k]) && found[k].scope == scope
        && found[k].consolidated_into is None && (found[k].kind is Event || found[k].kind is Note) by {
        what_can_be_folded(found[k], Some(scope));
    }
    assert forall|a: int, b: int| 0 <= a < b < found.len() implies (#[trigger] found[a]).created_at <= (
    #[trigger] found[b]).created_at by {
        assert(not_after(RowOrder::Oldest, found[a], found[b]));
    }
}

/// A summary is as important as the most important memory folded into it, and at least nothing.
pub proof fn summaries_weigh_as_much_as_the_weightiest(batch: Seq<ConsolidationRowView>)
    ensures
        forall|i: int| 0 <= i < batch.len() ==> rank_of((#[trigger] batch[i]).importance) <= rank_of(largest(batch)),
        rank_of(largest(batch)) >= 0,
        largest(batch).bits == 0 || exists|i: int| 0 <= i < batch.len() && (#[trigger] batch[i]).importance == largest(batch),
    decreases batch.len(),
{
    if batch.len() > 0 {
        let d = batch.drop_last();
        summaries_weigh_as_much_as_the_weightiest(d);
        assert(batch[batch.len() - 1] == batch.last());
        if largest(d).bits != 0 {
            let i = choose|i: int| 0 <= i < d.len() && (#[trigger] d[i]).importance == largest(d);
            assert(batch[i] == d[i]);
        }
        assert forall|i: int| 0 <= i < batch.len() implies rank_of((#[trigger] batch[i]).importance) <= rank_of(
            largest(batch),
        ) by {
            if i < d.len() {
                assert(d[i] == batch[i]);
            }
        }
    }
}

/// The summarizer is given the texts of the batch, all of them and in order.
pub proof fn summarizers_read_every_text(batch: Seq<ConsolidationRowView>, i: int)
    requires
        0 <= i < batch.len(),
    ensures
        batch_texts(batch).len() == batch.len(),
        batch_texts(batch)[i] == batch[i].text,
        ids_of(batch).len() == batch.len(),
        ids_of(batch)[i] == batch[i].id,
{
}

/// Folding a batch stores its summary, as a summary of the scope, and notes on each memory of the batch
/// which summary it went into. Every memory stays, and every other one stays as it was.
pub proof fn folding_points_to_the_summary(
    s: StoreView,
    scope: Seq<char>,
    batch: Seq<ConsolidationRowView>,
    summary: Seq<char>,
    now: i64,
    i: int,
)
    requires
        s.next_id < i64::MAX,
        0 <= i < s.memories.len(),
        forall|k: int| 0 <= k < batch.len() ==> (#[trigger] batch[k]).id < s.next_id,
    ensures
        ({
            let t = batch_folded(s, scope, batch, summary, now);
            let new = t.memories.last();
            let r = s.memories[i];
            let inside = exists|k: int| 0 <= k < batch.len() && (#[trigger] batch[k]).id == r.id;
            &&& t.memories.len() == s.memories.len() + 1
            &&& new.id == s.next_id && new.kind is Summary && new.text == summary && new.scope == scope && new.created_at
                == now && new.consolidated_into is None && new.importance == largest(batch)
            &&& inside ==> t.memories[i] == (MemoryRowView { consolidated_into: Some(s.next_id), ..r })
            &&& !inside ==> t.memories[i] == r
        }),
{
    let ids = ids_of(batch);
    let r = s.memories[i];
    if ids.contains(r.id) {
        let k = ids.index_of(r.id);
        assert(batch[k].id == r.id);
    }
    if exists|k: int| 0 <= k < batch.len() && (#[trigger] batch[k]).id == r.id {
        let k = choose|k: int| 0 <= k < batch.len() && (#[trigger] batch[k]).id == r.id;
        assert(ids[k] == r.id);
    }
    if ids.contains(s.next_id) {
        let k = ids.index_of(s.next_id);
        assert(batch[k].id == s.next_id);
    }
}

} // verus!
