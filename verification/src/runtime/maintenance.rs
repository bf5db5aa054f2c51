//! Keeping the memory in order, and telling about it.
use crate::memory::consolidate::{
    batches_in, batches_of, plan_batches, ConsolidatePlan, DEFAULT_BATCH_SIZE,
};
use crate::memory::model::{kind_word, ConsolidationRow, KindCount, ScopeCount, Snapshot};
use crate::memory::prune::{forgettable, PrunePolicy};
use crate::memory::queries::{
    conditions_split_the_table, foldable_rows, met_rows, unmet_rows, Condition, ConditionView, RowFilter,
};
use crate::memory::reports::{
    kind_counts_of, number_of, scope_counts_of, scopes_in, KindCountView, ScopeCountView,
};
use crate::memory::rows::folded_rows;
use crate::memory::store::{MemoryRowView, Store, StoreView};
use crate::text::{decimal, decimal_of, opt_str_view, signed_decimal, signed_decimal_of, texts};
use vstd::prelude::*;

verus! {

// ---------------------------------------------------------------------------
// Texts
// ---------------------------------------------------------------------------

/// The numbers of a list, separated by commas.
pub open spec fn number_list(ids: Seq<i64>) -> Seq<char>
    decreases ids.len(),
{
    if ids.len() == 0 {
        Seq::empty()
    } else if ids.len() == 1 {
        signed_decimal(ids[0] as int)
    } else {
        number_list(ids.drop_last()) + ", "@ + signed_decimal(ids.last() as int)
    }
}

/// A list of numbers in brackets.
pub open spec fn shown_ids(ids: Seq<i64>) -> Seq<char> {
    "["@ + number_list(ids) + "]"@
}

fn show_ids(ids: &Vec<i64>) -> (r: String)
    ensures
        r@ == shown_ids(ids@),
{
    let mut s = String::from_str("[");
    let mut i: usize = 0;
    assert(s@ =~= "["@ + number_list(ids@.take(0)));
    while i < ids.len()
        invariant
            i <= ids.len(),
            s@ == "["@ + number_list(ids@.take(i as int)),
        decreases ids.len() - i,
    {
        assert(ids@.take(i + 1).drop_last() =~= ids@.take(i as int));
        let ghost before = number_list(ids@.take(i as int));
        if i > 0 {
            s.append(", ");
        }
        let d = signed_decimal_of(ids[i]);
        s.append(d.as_str());
        i = i + 1;
        assert(s@ =~= "["@ + number_list(ids@.take(i as int)));
    }
    assert(ids@.take(i as int) =~= ids@);
    s.append("]");
    s
}

/// The lines of the counts by scope.
pub open spec fn scope_lines(c: Seq<ScopeCountView>) -> Seq<char>
    decreases c.len(),
{
    if c.len() == 0 {
        Seq::empty()
    } else {
        scope_lines(c.drop_last()) + "  "@ + c.last().scope + " = "@ + signed_decimal(c.last().count) + "\n"@
    }
}

/// The lines of the counts by category.
pub open spec fn kind_lines(c: Seq<KindCountView>) -> Seq<char>
    decreases c.len(),
{
    if c.len() == 0 {
        Seq::empty()
    } else {
        kind_lines(c.drop_last()) + "  "@ + kind_word(c.last().kind) + " = "@ + signed_decimal(c.last().count) + "\n"@
    }
}

/// The lines of a snapshot on age, meanings and candidates.
pub open spec fn snapshot_tail(s: Snapshot) -> Seq<char> {
    "年齡: <1d="@ + signed_decimal(s.age.last_day as int) + " <7d="@ + signed_decimal(s.age.last_week as int)
        + " <30d="@ + signed_decimal(s.age.last_month as int) + " older="@ + signed_decimal(s.age.older as int)
        + "\nembedding 覆蓋: "@ + signed_decimal(s.embedding.embedded as int) + "/"@ + signed_decimal(
        s.embedding.total as int,
    ) + "\nconsolidation 候選: "@ + signed_decimal(s.consolidation_candidates as int) + "\nprune 候選: "@
        + signed_decimal(s.prune_candidates as int)
}

/// A snapshot as text.
pub open spec fn snapshot_text(s: Snapshot) -> Seq<char> {
    "總計: "@ + signed_decimal(s.total as int) + "\n依範圍:\n"@ + scope_lines(scope_counts_of(s.by_scope@))
        + "依類型:\n"@ + kind_lines(kind_counts_of(s.by_kind@)) + snapshot_tail(s)
}

fn scope_table(counts: &Vec<ScopeCount>) -> (r: String)
    ensures
        r@ == scope_lines(scope_counts_of(counts@)),
{
    let ghost all = scope_counts_of(counts@);
    let mut s = String::new();
    let mut i: usize = 0;
    assert(s@ =~= scope_lines(all.take(0)));
    while i < counts.len()
        invariant
            i <= counts.len(),
            all == scope_counts_of(counts@),
            s@ == scope_lines(all.take(i as int)),
        decreases counts.len() - i,
    {
        assert(all.take(i + 1).drop_last() =~= all.take(i as int));
        assert(all[i as int] == counts@[i as int]@);
        s.append("  ");
        s.append(counts[i].scope.as_str());
        s.append(" = ");
        let d = signed_decimal_of(counts[i].count);
        s.append(d.as_str());
        s.append("\n");
        i = i + 1;
    }
    assert(all.take(i as int) =~= all);
    s
}

fn kind_table(counts: &Vec<KindCount>) -> (r: String)
    ensures
        r@ == kind_lines(kind_counts_of(counts@)),
{
    let ghost all = kind_counts_of(counts@);
    let mut s = String::new();
    let mut i: usize = 0;
    assert(s@ =~= kind_lines(all.take(0)));
    while i < counts.len()
        invariant
            i <= counts.len(),
            all == kind_counts_of(counts@),
            s@ == kind_lines(all.take(i as int)),
        decreases counts.len() - i,
    {
        assert(all.take(i + 1).drop_last() =~= all.take(i as int));
        assert(all[i as int] == counts@[i as int]@);
        s.append("  ");
        s.append(counts[i].kind.as_str());
        s.append(" = ");
        let d = signed_decimal_of(counts[i].count);
        s.append(d.as_str());
        s.append("\n");
        i = i + 1;
    }
    assert(all.take(i as int) =~= all);
    s
}

fn push_number(s: &mut String, label: &str, n: i64)
    ensures
        final(s)@ == old(s)@ + label@ + signed_decimal(n as int),
{
    s.append(label);
    let d = signed_decimal_of(n);
    s.append(d.as_str());
}

fn tail_of_snapshot(snap: &Snapshot) -> (r: String)
    ensures
        r@ == snapshot_tail(*snap),
{
    let mut s = String::from_str("年齡: <1d=");
    let d = signed_decimal_of(snap.age.last_day);
    s.append(d.as_str());
    push_number(&mut s, " <7d=", snap.age.last_week);
    push_number(&mut s, " <30d=", snap.age.last_month);
    push_number(&mut s, " older=", snap.age.older);
    push_number(&mut s, "\nembedding 覆蓋: ", snap.embedding.embedded);
    push_number(&mut s, "/", snap.embedding.total);
    push_number(&mut s, "\nconsolidation 候選: ", snap.consolidation_candidates);
    push_number(&mut s, "\nprune 候選: ", snap.prune_candidates);
    s
}

/// A snapshot as text.
pub fn memory_snapshot(snap: &Snapshot) -> (r: String)
    ensures
        r@ == snapshot_text(*snap),
{
    let mut s = String::from_str("總計: ");
    let d = signed_decimal_of(snap.total);
    s.append(d.as_str());
    s.append("\n依範圍:\n");
    let scopes = scope_table(&snap.by_scope);
    s.append(scopes.as_str());
    s.append("依類型:\n");
    let kinds = kind_table(&snap.by_kind);
    s.append(kinds.as_str());
    let tail = tail_of_snapshot(snap);
    s.append(tail.as_str());
    s
}

/// The mathematical form of planned batches.
pub open spec fn plan_of(p: ConsolidatePlan) -> Seq<Seq<i64>> {
    p.batches@.map_values(|b: Vec<i64>| b@)
}

/// The lines of the first planned batches.
pub open spec fn batch_lines(p: Seq<Seq<i64>>) -> Seq<char>
    decreases p.len(),
{
    if p.len() == 0 {
        Seq::empty()
    } else {
        batch_lines(p.drop_last()) + "\n  批 "@ + decimal(p.len()) + ": "@ + decimal(p.last().len()) + " 筆來源 "@
            + shown_ids(p.last())
    }
}

/// What folding would do, as text.
pub open spec fn plan_text(p: Seq<Seq<i64>>) -> Seq<char> {
    "[dry-run] 將產生 "@ + decimal(p.len()) + " 筆摘要:"@ + batch_lines(p)
}

fn push_count(s: &mut String, label: &str, n: usize)
    ensures
        final(s)@ == old(s)@ + label@ + decimal(n as nat),
{
    s.append(label);
    let d = decimal_of(n as u64);
    s.append(d.as_str());
}

/// What folding would do, as text.
pub fn consolidation_plan_text(plan: &ConsolidatePlan) -> (r: String)
    ensures
        r@ == plan_text(plan_of(*plan)),
{
    let ghost all = plan_of(*plan);
    let mut s = String::from_str("[dry-run] 將產生 ");
    let n = decimal_of(plan.batches.len() as u64);
    s.append(n.as_str());
    s.append(" 筆摘要:");
    let ghost head = s@;
    let mut i: usize = 0;
    assert(s@ =~= head + batch_lines(all.take(0)));
    while i < plan.batches.len()
        invariant
            i <= plan.batches.len(),
            all == plan_of(*plan),
            s@ == head + batch_lines(all.take(i as int)),
        decreases plan.batches.len() - i,
    {
        assert(all.take(i + 1).drop_last() =~= all.take(i as int));
        assert(all[i as int] == plan.batches@[i as int]@);
        push_count(&mut s, "\n  批 ", i + 1);
        push_count(&mut s, ": ", plan.batches[i].len());
        s.append(" 筆來源 ");
        let ids = show_ids(&plan.batches[i]);
        s.append(ids.as_str());
        i = i + 1;
        assert(s@ =~= head + batch_lines(all.take(i as int)));
    }
    assert(all.take(i as int) =~= all);
    s
}

/// What folding did, as text.
pub fn consolidation_text(ids: &Vec<i64>) -> (r: String)
    ensures
        r@ == "已建立 "@ + decimal(ids@.len()) + " 筆摘要: "@ + shown_ids(ids@),
{
    let mut s = String::from_str("已建立 ");
    let n = decimal_of(ids.len() as u64);
    s.append(n.as_str());
    s.append(" 筆摘要: ");
    let t = show_ids(ids);
    s.append(t.as_str());
    s
}

/// What pruning would do, as text.
pub fn prune_plan_text(ids: &Vec<i64>) -> (r: String)
    ensures
        r@ == "[dry-run] 將刪除 "@ + decimal(ids@.len()) + " 筆: "@ + shown_ids(ids@),
{
    let mut s = String::from_str("[dry-run] 將刪除 ");
    let n = decimal_of(ids.len() as u64);
    s.append(n.as_str());
    s.append(" 筆: ");
    let t = show_ids(ids);
    s.append(t.as_str());
    s
}

/// What pruning did, as text.
pub fn prune_text(n: u64) -> (r: String)
    ensures
        r@ == "已刪除 "@ + decimal(n as nat) + " 筆"@,
{
    let mut s = String::from_str("已刪除 ");
    let d = decimal_of(n);
    s.append(d.as_str());
    s.append(" 筆");
    s
}

/// What forgetting would do or did, as text.
pub open spec fn pruning_text(
    rows: Seq<MemoryRowView>,
    scope: Option<Seq<char>>,
    policy: PrunePolicy,
    now: i64,
    dry_run: bool,
) -> Seq<char> {
    let ids = forgettable(rows, scope, policy, now);
    if dry_run {
        "[dry-run] 將刪除 "@ + decimal(ids.len()) + " 筆: "@ + shown_ids(ids)
    } else {
        "已刪除 "@ + decimal(met_rows(rows, ConditionView::Ids(ids)).len()) + " 筆"@
    }
}

/// Forgets what may be forgotten, or only says what that would be.
pub fn memory_prune(store: &mut Store, scope: Option<&str>, policy: &PrunePolicy, now: i64, dry_run: bool) -> (r: String)
    requires
        old(store)@.wf(),
        i64::MIN <= now - policy.max_age_secs <= i64::MAX,
    ensures
        r@ == pruning_text(old(store)@.memories, opt_str_view(scope), *policy, now, dry_run),
        final(store)@ == (if dry_run {
            old(store)@
        } else {
            StoreView {
                memories: unmet_rows(
                    old(store)@.memories,
                    ConditionView::Ids(forgettable(old(store)@.memories, opt_str_view(scope), *policy, now)),
                ),
                ..old(store)@
            }
        }),
        final(store)@.wf(),
{
    if dry_run {
        let ids = store.plan_prune(scope, policy, now);
        prune_plan_text(&ids)
    } else {
        let n: u64 = store.prune(scope, policy, now);
        prune_text(n)
    }
}

// ---------------------------------------------------------------------------
// All scopes
// ---------------------------------------------------------------------------

/// What keeping the memory in order came to.
#[derive(Debug, Clone, Copy, PartialEq, Eq, Structural)]
pub struct AutoMaintenanceReport {
    pub scopes_checked: usize,
    pub scopes_consolidated: usize,
    pub summaries_created: usize,
    pub memories_pruned: u64,
}

impl Default for AutoMaintenanceReport {
    fn default() -> (r: AutoMaintenanceReport)
        ensures
            r.scopes_checked == 0,
            r.scopes_consolidated == 0,
            r.summaries_created == 0,
            r.memories_pruned == 0,
    {
        AutoMaintenanceReport {
            scopes_checked: 0,
            scopes_consolidated: 0,
            summaries_created: 0,
            memories_pruned: 0,
        }
    }
}

/// A walk over all scopes: those with enough to fold are folded, and what was folded is removed.
#[derive(Debug, Clone, PartialEq, Eq)]
pub struct Maintenance {
    /// The scopes that are still to be looked at, the next one last.
    pub scopes: Vec<String>,
    pub threshold: i64,
    pub report: AutoMaintenanceReport,
}

/// The scopes of the tables, the next one last.
pub open spec fn scopes_ahead(s: StoreView) -> Seq<Seq<char>> {
    let all = scopes_in(s.memories);
    Seq::new(all.len(), |i: int| all[all.len() - 1 - i])
}

/// The tables without the folded memories of a scope.
pub open spec fn folds_removed(s: StoreView, scope: Seq<char>) -> StoreView {
    StoreView { memories: unmet_rows(s.memories, folded_rows(Some(scope))), ..s }
}

/// How many memories of a scope were folded.
pub open spec fn folds_in(s: StoreView, scope: Seq<char>) -> int {
    number_of(s.memories, folded_rows(Some(scope)))
}

/// What is to be done in a scope.
#[derive(Debug, Clone, PartialEq, Eq)]
pub enum ScopeWork {
    /// All scopes were looked at.
    Over,
    /// The scope has too little to fold.
    Leave,
    /// These batches of the scope are to be folded.
    Fold { scope: String, batches: Vec<Vec<ConsolidationRow>> },
}

impl Maintenance {
    /// Begins the walk; where the threshold is not positive, no scope is looked at.
    pub fn start(store: &Store, candidate_threshold: i64) -> (r: Maintenance)
        ensures
            r.threshold == candidate_threshold,
            texts(r.scopes@) == (if candidate_threshold <= 0 {
                Seq::empty()
            } else {
                scopes_ahead(store@)
            }),
            r.report.scopes_checked == 0 && r.report.scopes_consolidated == 0 && r.report.summaries_created == 0
                && r.report.memories_pruned == 0,
    {
        let mut scopes: Vec<String> = Vec::new();
        assert(texts(scopes@) =~= Seq::empty());
        if candidate_threshold > 0 {
            let all = store.list_scopes();
            let ghost list = scopes_in(store@.memories);
            let ghost goal = scopes_ahead(store@);
            let n: usize = all.len();
            let mut i: usize = 0;
            while i < n
                invariant
                    i <= n,
                    n == all@.len(),
                    list == texts(all@),
                    goal == Seq::new(list.len(), |i: int| list[list.len() - 1 - i]),
                    scopes@.len() == i,
                    forall|k: int| 0 <= k < i ==> (#[trigger] scopes@[k])@ == goal[k],
                decreases n - i,
            {
                assert(list[n - 1 - i] == all@[n - 1 - i]@);
                scopes.push(all[n - 1 - i].clone());
                i = i + 1;
            }
            assert(texts(scopes@) =~= goal);
        }
        Maintenance { scopes, threshold: candidate_threshold, report: AutoMaintenanceReport::default() }
    }

    /// Goes to the next scope: removes what was folded there before, and gives what is to be
    /// folded now.
    pub fn next_scope(&mut self, store: &mut Store) -> (r: ScopeWork)
        requires
            old(store)@.wf(),
            old(self).report.scopes_checked < usize::MAX,
            old(self).report.memories_pruned + old(store)@.memories.len() <= u64::MAX,
        ensures
            final(store)@.wf(),
            final(self).threshold == old(self).threshold,
            if old(self).scopes@.len() == 0 {
                &&& r is Over
                &&& final(store)@ == old(store)@
                &&& *final(self) == *old(self)
            } else {
                let scope = old(self).scopes@.last()@;
                let after = folds_removed(old(store)@, scope);
                &&& final(store)@ == after
                &&& final(self).scopes@ == old(self).scopes@.drop_last()
                &&& final(self).report == (AutoMaintenanceReport {
                    scopes_checked: (old(self).report.scopes_checked + 1) as usize,
                    memories_pruned: (old(self).report.memories_pruned + folds_in(old(store)@, scope)) as u64,
                    ..old(self).report
                })
                &&& if number_of(after.memories, foldable_rows(Some(scope))) < old(self).threshold {
                    r is Leave
                } else {
                    r matches ScopeWork::Fold { scope: name, batches } && name@ == scope && batches_of(batches@)
                        == batches_in(after.memories, scope, DEFAULT_BATCH_SIZE)
                }
            },
    {
        if self.scopes.len() == 0 {
            return ScopeWork::Over;
        }
        proof {
            conditions_split_the_table(store@.memories, folded_rows(Some(self.scopes@.last()@)));
        }
        match self.scopes.pop() {
            None => ScopeWork::Over,
            Some(scope) => {
                self.report.scopes_checked = self.report.scopes_checked + 1;
                let gone: u64 = store.delete_consolidated(Some(scope.as_str()));
                self.report.memories_pruned = self.report.memories_pruned + gone;
                let mut f = RowFilter::of(Some(scope.as_str()));
                f.foldable = true;
                f.folded = Some(false);
                let n: usize = store.count(&Condition::Rows(f));
                if (n as i128) < self.threshold as i128 {
                    return ScopeWork::Leave;
                }
                let rows = store.consolidation_candidates(scope.as_str());
                let batches = plan_batches(rows, DEFAULT_BATCH_SIZE);
                ScopeWork::Fold { scope, batches }
            },
        }
    }

    /// Ends the work in a scope after its batches were folded: removes what was folded.
    pub fn scope_folded(&mut self, store: &mut Store, scope: &str, created: usize)
        requires
            old(store)@.wf(),
            old(self).report.scopes_consolidated < usize::MAX,
            old(self).report.summaries_created + created <= usize::MAX,
            old(self).report.memories_pruned + old(store)@.memories.len() <= u64::MAX,
        ensures
            final(store)@.wf(),
            final(store)@ == folds_removed(old(store)@, scope@),
            final(self).scopes == old(self).scopes,
            final(self).threshold == old(self).threshold,
            final(self).report == (AutoMaintenanceReport {
                scopes_consolidated: (old(self).report.scopes_consolidated + 1) as usize,
                summaries_created: (old(self).report.summaries_created + created) as usize,
                memories_pruned: (old(self).report.memories_pruned + folds_in(old(store)@, scope@)) as u64,
                ..old(self).report
            }),
    {
        proof {
            conditions_split_the_table(store@.memories, folded_rows(Some(scope@)));
        }
        let gone: u64 = store.delete_consolidated(Some(scope));
        self.report.scopes_consolidated = self.report.scopes_consolidated + 1;
        self.report.summaries_created = self.report.summaries_created + created;
        self.report.memories_pruned = self.report.memories_pruned + gone;
    }
}

} // verus!
