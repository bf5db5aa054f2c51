//! What the memory keeps and what it forgets, and what a question of the table gets.
use crate::memory::model::MemoryKind;
use crate::memory::prune::{forgettable, PrunePolicy};
use crate::memory::queries::{
    any_of, any_row, follows, holding, met_rows, prunable_rows, row_key, row_keys, selected,
    unmet_rows, ConditionView, FilterView, RowOrder,
};
use crate::memory::rows::{
    changed, conversation_noted, folded_rows, importance_of, rows_changed, stored_under,
    unknown_keys_are_free, with_conversation, with_items, with_memory, ItemView, RowChangeView,
};
use crate::memory::store::{MemoryRowView, StoreView};
use crate::order::{
    key_before, rank_of, sorted_order, sorting_is_a_permutation, sorting_is_stable, Real,
};
use crate::text::ascii_lower;
use vstd::prelude::*;

verus! {

// ---------------------------------------------------------------------------
// Forgetting
// ---------------------------------------------------------------------------

/// A memory that was not folded into a summary is kept as long as it was ever recalled, is not older
/// than the cutoff, or is not less important than the floor; and no memory of another scope, nor one
/// that is neither an event nor a note, is ever forgotten.
pub proof fn what_is_worth_keeping_is_kept(r: MemoryRowView, scope: Option<Seq<char>>, before: i64, floor: Real)
    ensures
        ({
            let c = ConditionView::Prunable { scope, before, floor };
            &&& r.consolidated_into is None && r.recall_count != 0 ==> !c.met(r)
            &&& r.consolidated_into is None && r.created_at >= before ==> !c.met(r)
            &&& r.consolidated_into is None && rank_of(r.importance) >= rank_of(floor) ==> !c.met(r)
            &&& !(r.kind is Event) && !(r.kind is Note) ==> !c.met(r)
            &&& r.word is Some ==> !c.met(r)
            &&& scope is Some && scope->0 != r.scope ==> !c.met(r)
        }),
{
}

/// An event or a note of the scope is forgotten once it was folded into a summary, and also where it is
/// older than the cutoff, was never recalled and is less important than the floor.
pub proof fn what_is_spent_is_forgotten(r: MemoryRowView, scope: Option<Seq<char>>, before: i64, floor: Real)
    requires
        r.kind is Event || r.kind is Note,
        r.word is None,
        scope is None || scope->0 == r.scope,
    ensures
        ({
            let c = ConditionView::Prunable { scope, before, floor };
            &&& r.consolidated_into is Some ==> c.met(r)
            &&& r.created_at < before && r.recall_count == 0 && rank_of(r.importance) < rank_of(floor) ==> c.met(r)
        }),
{
}

/// A memory that was recalled once is never forgotten for its age, and one that was folded into a
/// summary may be.
pub proof fn recalling_saves_a_memory(r: MemoryRowView, scope: Option<Seq<char>>, before: i64, floor: Real, at: i64, summary: i64)
    requires
        0 <= r.recall_count < i64::MAX,
    ensures
        r.consolidated_into is None ==> !(ConditionView::Prunable { scope, before, floor }).met(
            changed(r, RowChangeView::Recalled(at)),
        ),
        (r.kind is Event || r.kind is Note) && r.word is None ==> (ConditionView::Prunable {
            scope: None,
            before,
            floor,
        }).met(changed(r, RowChangeView::Folded(summary))),
{
}

/// What stays in the table is what does not meet the condition, as it was and in its order; what is
/// found is what meets it.
pub proof fn conditions_sort_out(rows: Seq<MemoryRowView>, c: ConditionView)
    ensures
        met_rows(rows, c) == rows.filter(|r: MemoryRowView| c.met(r)),
        unmet_rows(rows, c) == rows.filter(|r: MemoryRowView| !c.met(r)),
    decreases rows.len(),
{
    reveal(Seq::filter);
    if rows.len() > 0 {
        conditions_sort_out(rows.drop_last(), c);
    }
}

proof fn met_rows_hold(rows: Seq<MemoryRowView>, c: ConditionView)
    ensures
        forall|i: int| 0 <= i < rows.len() && c.met(#[trigger] rows[i]) ==> met_rows(rows, c).contains(rows[i]),
        forall|i: int| 0 <= i < rows.len() && !c.met(#[trigger] rows[i]) ==> unmet_rows(rows, c).contains(rows[i]),
        forall|i: int|
            0 <= i < met_rows(rows, c).len() ==> c.met(#[trigger] met_rows(rows, c)[i]) && rows.contains(
                met_rows(rows, c)[i],
            ),
        forall|i: int|
            0 <= i < unmet_rows(rows, c).len() ==> !c.met(#[trigger] unmet_rows(rows, c)[i]) && rows.contains(
                unmet_rows(rows, c)[i],
            ),
    decreases rows.len(),
{
    if rows.len() > 0 {
        let d = rows.drop_last();
        let (m, u) = (met_rows(rows, c), unmet_rows(rows, c));
        let (dm, du) = (met_rows(d, c), unmet_rows(d, c));
        met_rows_hold(d, c);
        assert(rows[rows.len() - 1] == rows.last());
        assert forall|i: int| 0 <= i < rows.len() && c.met(#[trigger] rows[i]) implies m.contains(rows[i]) by {
            if i < d.len() {
                assert(d[i] == rows[i]);
                assert(m[dm.index_of(d[i])] == rows[i]);
            } else {
                assert(m[dm.len() as int] == rows[i]);
            }
        }
        assert forall|i: int| 0 <= i < rows.len() && !c.met(#[trigger] rows[i]) implies u.contains(rows[i]) by {
            if i < d.len() {
                assert(d[i] == rows[i]);
                assert(u[du.index_of(d[i])] == rows[i]);
            } else {
                assert(u[du.len() as int] == rows[i]);
            }
        }
        assert forall|i: int| 0 <= i < m.len() implies c.met(#[trigger] m[i]) && rows.contains(m[i]) by {
            if i < dm.len() {
                assert(m[i] == dm[i]);
                assert(rows[d.index_of(dm[i])] == m[i]);
            }
        }
        assert forall|i: int| 0 <= i < u.len() implies !c.met(#[trigger] u[i]) && rows.contains(u[i]) by {
            if i < du.len() {
                assert(u[i] == du[i]);
                assert(rows[d.index_of(du[i])] == u[i]);
            }
        }
    }
}

/// Forgetting by a policy removes an event or a note of the scope exactly where it was folded into a
/// summary, or is older than the policy says, was never recalled and is less important than the
/// policy says. Every other memory stays.
pub proof fn policies_forget_what_is_spent(
    rows: Seq<MemoryRowView>,
    scope: Option<Seq<char>>,
    policy: PrunePolicy,
    now: i64,
    i: int,
)
    requires
        forall|a: int, b: int| 0 <= a < b < rows.len() ==> (#[trigger] rows[a]).id != (#[trigger] rows[b]).id,
        i64::MIN <= now - policy.max_age_secs <= i64::MAX,
        0 <= i < rows.len(),
    ensures
        ({
            let r = rows[i];
            let ids = forgettable(rows, scope, policy, now);
            let spent = (r.kind is Event || r.kind is Note) && r.word is None && (scope is None || scope->0 == r.scope) && (
            r.consolidated_into is Some || (now - r.created_at > policy.max_age_secs && r.recall_count == 0 && rank_of(
                r.importance,
            ) < rank_of(policy.importance_floor)));
            &&& ids.contains(r.id) <==> spent
            &&& unmet_rows(rows, ConditionView::Ids(ids)).contains(r) <==> !spent
        }),
{
    let r = rows[i];
    let ids = forgettable(rows, scope, policy, now);
    let c = prunable_rows(scope, policy.max_age_secs, policy.importance_floor, now);
    let s = selected(rows, c, RowOrder::Stored, -1);
    met_rows_hold(rows, c);
    met_rows_hold(rows, ConditionView::Ids(ids));
    all_that_meet_are_selected(rows, c, RowOrder::Stored, -1);
    if c.met(r) {
        let k = s.index_of(r);
        assert(ids[k] == r.id);
    }
    if ids.contains(r.id) {
        let k = ids.index_of(r.id);
        assert(s[k].id == r.id);
        let j = rows.index_of(s[k]);
        assert(rows[j] == s[k]);
        if j < i {
            assert(rows[j].id != rows[i].id);
        } else if i < j {
            assert(rows[i].id != rows[j].id);
        }
    }
    let u = unmet_rows(rows, ConditionView::Ids(ids));
    if u.contains(r) {
        let k = u.index_of(r);
        assert(u[k] == r);
    }
}

/// An event or a note that was folded into a summary is among what is cleared away, in its own scope
/// and where no scope is named; nothing else is.
pub proof fn folded_memories_are_cleared(r: MemoryRowView, scope: Option<Seq<char>>)
    ensures
        folded_rows(scope).met(r) <==> r.consolidated_into is Some && (r.kind is Event || r.kind is Note) && r.word is None && (
        scope is None || scope->0 == r.scope),
{
    if scope is Some {
        let s = seq![scope->0];
        assert(s[0] == scope->0);
        if s.contains(r.scope) {
            assert(s.index_of(r.scope) == 0);
        }
    }
}

// ---------------------------------------------------------------------------
// Asking
// ---------------------------------------------------------------------------

/// The filter that leaves all open admits every memory, and one for a scope those of the scope.
pub proof fn open_filters_admit_everything(r: MemoryRowView, scope: Seq<char>)
    ensures
        any_row().admits(r),
        any_of(None).admits(r),
        any_of(Some(scope)).admits(r) <==> r.scope == scope,
{
    let s = seq![scope];
    assert(s[0] == scope);
    if s.contains(r.scope) {
        assert(s.index_of(r.scope) == 0);
    }
}

/// A memory that a filter admits is what the filter asks for, in every field.
pub proof fn filters_admit_what_they_ask_for(f: FilterView, r: MemoryRowView)
    requires
        f.admits(r),
    ensures
        f.scopes is Some && f.scopes->0.len() > 0 ==> f.scopes->0.contains(r.scope),
        f.kind is Some ==> r.kind == f.kind->0 && r.word is None,
        f.word is Some ==> r.word == f.word,
        f.foldable ==> (r.kind is Event || r.kind is Note) && r.word is None,
        f.folded == Some(true) ==> r.consolidated_into is Some,
        f.folded == Some(false) ==> r.consolidated_into is None,
        f.embedded == Some(true) ==> r.embedding is Some,
        f.embedded == Some(false) ==> r.embedding is None,
        f.since is Some ==> r.created_at >= f.since->0,
        f.before is Some ==> r.created_at < f.before->0,
        f.like is Some ==> follows(f.like->0, r.text),
{
}

/// A filter that asks for one thing admits every memory that has it, and narrowing a filter in one
/// field leaves out only what lacks that.
pub proof fn filters_leave_nothing_out(f: FilterView, r: MemoryRowView)
    requires
        f.admits(r),
    ensures
        (FilterView { kind: Some(r.kind), ..f }).admits(r) <==> r.word is None,
        (FilterView { scopes: Some(seq![r.scope]), ..f }).admits(r),
        r.word is Some ==> (FilterView { word: r.word, ..f }).admits(r),
        (FilterView { folded: Some(r.consolidated_into is Some), ..f }).admits(r),
        (FilterView { embedded: Some(r.embedding is Some), ..f }).admits(r),
        forall|t: i64| r.created_at >= t ==> #[trigger] (FilterView { since: Some(t), ..f }).admits(r),
        forall|t: i64| r.created_at < t ==> #[trigger] (FilterView { before: Some(t), ..f }).admits(r),
        (r.kind is Event || r.kind is Note) && r.word is None ==> (FilterView { foldable: true, ..f }).admits(r),
{
    let s = seq![r.scope];
    assert(s[0] == r.scope);
}

/// The first memory is not later than the second in an order.
pub open spec fn not_after(order: RowOrder, a: MemoryRowView, b: MemoryRowView) -> bool {
    match order {
        RowOrder::Stored => true,
        RowOrder::Newest => a.created_at >= b.created_at,
        RowOrder::NewestRow => a.created_at > b.created_at || (a.created_at == b.created_at && a.id >= b.id),
        RowOrder::Oldest => a.created_at < b.created_at || (a.created_at == b.created_at && a.id <= b.id),
    }
}

/// What is selected meets the condition and is in order. A memory that meets the condition is left out
/// only where as many as asked for were selected, none of them later in order; a negative limit leaves
/// out none.
pub proof fn all_that_meet_are_selected(rows: Seq<MemoryRowView>, c: ConditionView, order: RowOrder, limit: int)
    ensures
        forall|i: int|
            0 <= i < selected(rows, c, order, limit).len() ==> c.met(#[trigger] selected(rows, c, order, limit)[i])
                && rows.contains(selected(rows, c, order, limit)[i]),
        forall|i: int|
            #![trigger rows[i]]
            0 <= i < rows.len() && c.met(rows[i]) && !selected(rows, c, order, limit).contains(rows[i]) ==> limit >= 0
                && selected(rows, c, order, limit).len() == limit && forall|k: int|
                0 <= k < selected(rows, c, order, limit).len() ==> not_after(
                    order,
                    #[trigger] selected(rows, c, order, limit)[k],
                    rows[i],
                ),
        forall|a: int, b: int|
            0 <= a < b < selected(rows, c, order, limit).len() ==> not_after(
                order,
                #[trigger] selected(rows, c, order, limit)[a],
                #[trigger] selected(rows, c, order, limit)[b],
            ),
        selected(rows, c, order, limit).len() <= rows.len(),
{
    let d = met_rows(rows, c);
    let keys = row_keys(order, d);
    let n = keys.len() as int;
    let at = sorted_order(keys, n);
    let t = selected(rows, c, order, limit);
    met_rows_hold(rows, c);
    no_more_than_there_are(rows, c);
    sorting_is_a_permutation(keys, n);
    assert forall|i: int| 0 <= i < t.len() implies 0 <= #[trigger] at[i] < n && t[i] == d[at[i]] by {
        assert(at.contains(at[i]));
    }
    assert forall|a: int, b: int| 0 <= a < b < n implies not_after(order, d[#[trigger] at[a]], d[#[trigger] at[b]]) by {
        assert(at.contains(at[a]));
        assert(at.contains(at[b]));
        assert(!key_before(keys[at[b]], keys[at[a]]));
        assert(keys[at[a]] == row_key(order, d[at[a]]));
        assert(keys[at[b]] == row_key(order, d[at[b]]));
    }
    assert forall|i: int| 0 <= i < t.len() implies c.met(#[trigger] t[i]) && rows.contains(t[i]) by {
        assert(0 <= at[i] < n);
    }
    assert forall|a: int, b: int| 0 <= a < b < t.len() implies not_after(order, #[trigger] t[a], #[trigger] t[b]) by {
        assert(0 <= at[a] < n);
        assert(0 <= at[b] < n);
    }
    assert forall|i: int|
        #![trigger rows[i]]
        0 <= i < rows.len() && c.met(rows[i]) && !t.contains(rows[i]) implies limit >= 0 && t.len() == limit && forall|
        k: int,
    | 0 <= k < t.len() ==> not_after(order, #[trigger] t[k], rows[i]) by {
        let x = d.index_of(rows[i]);
        assert(d[x] == rows[i]);
        assert(at.contains(x));
        let p = at.index_of(x);
        if p < t.len() {
            assert(t[p] == rows[i]);
        }
        assert forall|k: int| 0 <= k < t.len() implies not_after(order, #[trigger] t[k], rows[i]) by {
            assert(0 <= at[k] < n);
            assert(not_after(order, d[at[k]], d[at[p]]));
        }
    }
}

proof fn no_more_than_there_are(rows: Seq<MemoryRowView>, c: ConditionView)
    ensures
        met_rows(rows, c).len() <= rows.len(),
    decreases rows.len(),
{
    if rows.len() > 0 {
        no_more_than_there_are(rows.drop_last(), c);
    }
}

/// Memories asked for in no special order come as they stand in the table.
pub proof fn stored_order_is_kept(rows: Seq<MemoryRowView>, c: ConditionView)
    ensures
        selected(rows, c, RowOrder::Stored, -1) == rows.filter(|r: MemoryRowView| c.met(r)),
{
    conditions_sort_out(rows, c);
    let d = met_rows(rows, c);
    let keys = row_keys(RowOrder::Stored, d);
    let n = keys.len() as int;
    let at = sorted_order(keys, n);
    sorting_is_a_permutation(keys, n);
    sorting_is_stable(keys, n);
    assert forall|i: int| 0 <= i < n implies #[trigger] at[i] == i by {
        grows_as_counted(at, keys, n, i);
    }
    assert(selected(rows, c, RowOrder::Stored, -1) =~= d);
}

proof fn grows_as_counted(at: Seq<int>, keys: Seq<(i128, i128)>, n: int, i: int)
    requires
        at.len() == n,
        forall|x: int| #[trigger] at.contains(x) <==> 0 <= x < n,
        forall|a: int| 0 <= a < n ==> #[trigger] keys[a] == (0i128, 0i128),
        forall|a: int, b: int|
            0 <= a < b < n && keys[#[trigger] at[a]] == keys[#[trigger] at[b]] ==> at[a] < at[b],
        0 <= i < n,
    ensures
        at[i] == i,
{
    at_least(at, keys, n, i);
    at_most(at, keys, n, i);
}

proof fn at_least(at: Seq<int>, keys: Seq<(i128, i128)>, n: int, i: int)
    requires
        at.len() == n,
        forall|x: int| #[trigger] at.contains(x) <==> 0 <= x < n,
        forall|a: int| 0 <= a < n ==> #[trigger] keys[a] == (0i128, 0i128),
        forall|a: int, b: int|
            0 <= a < b < n && keys[#[trigger] at[a]] == keys[#[trigger] at[b]] ==> at[a] < at[b],
        0 <= i < n,
    ensures
        at[i] >= i,
    decreases i,
{
    assert(at.contains(at[i]));
    if i > 0 {
        at_least(at, keys, n, i - 1);
        assert(at.contains(at[i - 1]));
        assert(keys[at[i - 1]] == keys[at[i]]);
    }
}

proof fn at_most(at: Seq<int>, keys: Seq<(i128, i128)>, n: int, i: int)
    requires
        at.len() == n,
        forall|x: int| #[trigger] at.contains(x) <==> 0 <= x < n,
        forall|a: int| 0 <= a < n ==> #[trigger] keys[a] == (0i128, 0i128),
        forall|a: int, b: int|
            0 <= a < b < n && keys[#[trigger] at[a]] == keys[#[trigger] at[b]] ==> at[a] < at[b],
        0 <= i < n,
    ensures
        at[i] <= i,
    decreases n - i,
{
    assert(at.contains(at[i]));
    if i + 1 < n {
        at_most(at, keys, n, i + 1);
        assert(at.contains(at[i + 1]));
        assert(keys[at[i]] == keys[at[i + 1]]);
    }
}

// ---------------------------------------------------------------------------
// Patterns
// ---------------------------------------------------------------------------

/// Two characters are the same but for the case of an ASCII letter.
pub open spec fn alike(a: char, b: char) -> bool {
    ascii_lower(a) == ascii_lower(b)
}

/// A text stands in another at a place, whatever the case of its ASCII letters.
pub open spec fn stands_at(text: Seq<char>, part: Seq<char>, p: int) -> bool {
    0 <= p && p + part.len() <= text.len() && forall|i: int| 0 <= i < part.len() ==> alike(part[i], #[trigger] text[p + i])
}

/// A pattern without `%` is followed by the texts of its length that agree with it character by character:
/// an underscore stands for any character, and every other character for itself in either case.
pub proof fn patterns_fit_character_by_character(pattern: Seq<char>, text: Seq<char>)
    requires
        forall|i: int| 0 <= i < pattern.len() ==> #[trigger] pattern[i] != '%',
    ensures
        follows(pattern, text) <==> pattern.len() == text.len() && forall|i: int|
            0 <= i < pattern.len() ==> #[trigger] pattern[i] == '_' || alike(pattern[i], text[i]),
    decreases pattern.len(),
{
    if pattern.len() > 0 {
        assert(pattern[0] != '%');
        let p = pattern.drop_first();
        assert forall|i: int| 0 <= i < p.len() implies #[trigger] p[i] != '%' by {
            assert(p[i] == pattern[i + 1]);
        }
        if text.len() > 0 {
            let t = text.drop_first();
            patterns_fit_character_by_character(p, t);
            if follows(pattern, text) {
                assert forall|i: int| 0 <= i < pattern.len() implies #[trigger] pattern[i] == '_' || alike(
                    pattern[i],
                    text[i],
                ) by {
                    if i > 0 {
                        assert(p[i - 1] == pattern[i]);
                        assert(t[i - 1] == text[i]);
                    }
                }
            }
            if pattern.len() == text.len() && forall|i: int|
                0 <= i < pattern.len() ==> #[trigger] pattern[i] == '_' || alike(pattern[i], text[i]) {
                assert(pattern[0] == '_' || alike(pattern[0], text[0]));
                assert forall|i: int| 0 <= i < p.len() implies #[trigger] p[i] == '_' || alike(p[i], t[i]) by {
                    assert(pattern[i + 1] == '_' || alike(pattern[i + 1], text[i + 1]));
                }
            }
        }
    }
}

proof fn anything_goes(text: Seq<char>)
    ensures
        follows("%"@, text),
    decreases text.len(),
{
    reveal_strlit("%");
    assert("%"@.drop_first() =~= Seq::empty());
    if text.len() > 0 {
        anything_goes(text.drop_first());
    } else {
        assert(follows("%"@.drop_first(), text));
    }
}

proof fn tails_follow(part: Seq<char>, text: Seq<char>)
    requires
        forall|i: int| 0 <= i < part.len() ==> #[trigger] part[i] != '%' && part[i] != '_',
    ensures
        follows(part + "%"@, text) <==> stands_at(text, part, 0),
    decreases part.len(),
{
    let p = part + "%"@;
    reveal_strlit("%");
    if part.len() == 0 {
        assert(p =~= "%"@);
        anything_goes(text);
        assert(stands_at(text, part, 0));
    } else {
        assert(p[0] == part[0]);
        assert(p.drop_first() =~= part.drop_first() + "%"@);
        if text.len() > 0 {
            let q = part.drop_first();
            let t = text.drop_first();
            tails_follow(q, t);
            if stands_at(text, part, 0) {
                assert(alike(part[0], text[0int + 0]));
                assert forall|i: int| 0 <= i < q.len() implies alike(q[i], #[trigger] t[0int + i]) by {
                    assert(alike(part[i + 1], text[0int + (i + 1)]));
                }
            }
            if follows(p, text) {
                assert forall|i: int| 0 <= i < part.len() implies alike(part[i], #[trigger] text[0int + i]) by {
                    if i > 0 {
                        assert(alike(q[i - 1], t[0int + (i - 1)]));
                    }
                }
            }
        }
    }
}

/// A text is found by what it holds: the pattern for a part without `%` and `_` is followed by exactly
/// the texts in which the part stands somewhere, whatever the case of ASCII letters.
pub proof fn texts_are_found_by_their_parts(part: Seq<char>, text: Seq<char>)
    requires
        forall|i: int| 0 <= i < part.len() ==> #[trigger] part[i] != '%' && part[i] != '_',
    ensures
        follows(holding(part), text) <==> exists|p: int| #[trigger] stands_at(text, part, p),
    decreases text.len(),
{
    let h = holding(part);
    reveal_strlit("%");
    assert(h[0] == '%');
    assert(h.drop_first() =~= part + "%"@);
    tails_follow(part, text);
    if text.len() > 0 {
        let t = text.drop_first();
        texts_are_found_by_their_parts(part, t);
        if follows(h, t) {
            let p = choose|p: int| #[trigger] stands_at(t, part, p);
            assert forall|i: int| 0 <= i < part.len() implies alike(part[i], #[trigger] text[p + 1 + i]) by {
                assert(alike(part[i], t[p + i]));
            }
            assert(stands_at(text, part, p + 1));
        }
        if exists|p: int| #[trigger] stands_at(text, part, p) {
            let p = choose|p: int| #[trigger] stands_at(text, part, p);
            if p > 0 {
                assert forall|i: int| 0 <= i < part.len() implies alike(part[i], #[trigger] t[p - 1 + i]) by {
                    assert(alike(part[i], text[p + i]));
                }
                assert(stands_at(t, part, p - 1));
            }
        }
    } else if exists|p: int| #[trigger] stands_at(text, part, p) {
        let p = choose|p: int| #[trigger] stands_at(text, part, p);
        assert(p == 0);
    }
}

// ---------------------------------------------------------------------------
// Storing
// ---------------------------------------------------------------------------

/// A memory is stored as it was given, made now, not yet recalled, embedded or folded, behind all
/// others, unless its key is taken; then nothing changes.
pub proof fn memories_are_stored_as_given(
    s: StoreView,
    session_id: Option<Seq<char>>,
    scope: Seq<char>,
    kind: MemoryKind,
    text: Seq<char>,
    importance: Real,
    now: i64,
    key: Option<Seq<char>>,
)
    requires
        s.next_id < i64::MAX,
    ensures
        ({
            let t = with_memory(s, session_id, scope, kind, text, importance, now, key);
            let taken = key is Some && exists|k: int| 0 <= k < s.memories.len() && (#[trigger] s.memories[k]).dedupe_key == key;
            &&& taken ==> t == s
            &&& !taken ==> {
                let m = t.memories.last();
                &&& t.memories.len() == s.memories.len() + 1
                &&& t.memories.drop_last() == s.memories
                &&& t.next_id == s.next_id + 1
                &&& m.id == s.next_id && m.session_id == session_id && m.scope == scope && m.kind == kind && m.text == text
                &&& m.created_at == now && m.importance == importance && m.dedupe_key == key
                &&& m.recall_count == 0 && m.last_recalled_at is None && m.embedding is None && m.embedding_model is None
                &&& m.consolidated_into is None && m.word is None
            }
        }),
{
    let t = with_memory(s, session_id, scope, kind, text, importance, now, key);
    if key is Some && exists|k: int| 0 <= k < s.memories.len() && (#[trigger] s.memories[k]).dedupe_key == key {
        let k = choose|k: int| 0 <= k < s.memories.len() && (#[trigger] s.memories[k]).dedupe_key == key;
        taken_keys_are_found(s.memories, key->0, k);
    } else {
        unknown_keys_are_free(s.memories, key);
        assert(t.memories.drop_last() =~= s.memories);
    }
}

proof fn taken_keys_are_found(rows: Seq<MemoryRowView>, key: Seq<char>, k: int)
    requires
        0 <= k < rows.len(),
        rows[k].dedupe_key == Some(key),
    ensures
        stored_under(rows, Some(key)) is Some,
    decreases rows.len(),
{
    if rows[0].dedupe_key != Some(key) {
        taken_keys_are_found(rows.drop_first(), key, k - 1);
    }
}

/// An item without a weight of its own weighs one.
pub proof fn items_weigh_one(i: ItemView)
    ensures
        i.importance is Some ==> importance_of(i) == i.importance->0,
        i.importance is None ==> importance_of(i).bits == 0x3FF0_0000_0000_0000,
{
}

/// Items are stored one after the other, each as if it were alone.
pub proof fn items_are_stored_in_order(
    s: StoreView,
    session_id: Option<Seq<char>>,
    scope: Seq<char>,
    items: Seq<ItemView>,
    next: ItemView,
    now: i64,
)
    ensures
        with_items(s, session_id, scope, Seq::empty(), now) == s,
        with_items(s, session_id, scope, items.push(next), now) == with_memory(
            with_items(s, session_id, scope, items, now),
            session_id,
            scope,
            next.kind,
            next.text,
            importance_of(next),
            now,
            next.dedupe_key,
        ),
{
    assert(items.push(next).drop_last() =~= items);
}

/// A conversation is noted once, with its scope and the moment it began; noting it again changes
/// nothing.
pub proof fn conversations_are_noted_once(s: StoreView, id: Seq<char>, scope: Seq<char>, now: i64, other: Seq<char>, later: i64)
    ensures
        ({
            let t = with_conversation(s, id, scope, now);
            let known = exists|i: int| 0 <= i < s.conversations.len() && (#[trigger] s.conversations[i]).id == id;
            &&& known ==> t == s
            &&& !known ==> t.conversations.drop_last() == s.conversations && t.conversations.last().id == id
                && t.conversations.last().scope == scope && t.conversations.last().created_at == now
            &&& t.memories == s.memories && t.next_id == s.next_id
            &&& with_conversation(t, id, other, later) == t
            &&& conversation_noted(s, Some(id), scope, now) == t
        }),
        conversation_noted(s, None, scope, now) == s,
{
    let t = with_conversation(s, id, scope, now);
    if t != s {
        assert(t.conversations.drop_last() =~= s.conversations);
        assert(t.conversations[t.conversations.len() - 1].id == id);
    }
}

/// A change reaches exactly the memories named, and changes of them only what it is about.
pub proof fn changes_reach_those_named(rows: Seq<MemoryRowView>, ids: Seq<i64>, at: i64, summary: i64, b: Seq<u8>, m: Seq<char>, i: int)
    requires
        0 <= i < rows.len(),
        rows[i].recall_count < i64::MAX,
    ensures
        ({
            let r = rows[i];
            let recalled = rows_changed(rows, ids, RowChangeView::Recalled(at))[i];
            let folded = rows_changed(rows, ids, RowChangeView::Folded(summary))[i];
            let embedded = rows_changed(rows, ids, RowChangeView::Embedded(b, m))[i];
            &&& !ids.contains(r.id) ==> recalled == r && folded == r && embedded == r
            &&& ids.contains(r.id) ==> {
                &&& recalled.recall_count == r.recall_count + 1
                &&& recalled.last_recalled_at == Some(at)
                &&& folded.consolidated_into == Some(summary)
                &&& embedded.embedding == Some(b) && embedded.embedding_model == Some(m)
            }
            &&& recalled == (MemoryRowView {
                recall_count: recalled.recall_count,
                last_recalled_at: recalled.last_recalled_at,
                ..r
            })
            &&& folded == (MemoryRowView { consolidated_into: folded.consolidated_into, ..r })
            &&& embedded == (MemoryRowView {
                embedding: embedded.embedding,
                embedding_model: embedded.embedding_model,
                ..r
            })
        }),
{
}

} // verus!
