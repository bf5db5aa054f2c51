//! Which memories are safe to forget.
use crate::memory::queries::{prunable_rows, selected, ConditionView, RowOrder};
use crate::memory::queries::{met_rows, unmet_rows};
use crate::memory::store::{MemoryRowView, Store, StoreView};
use crate::order::Real;
use crate::text::opt_str_view;
use vstd::prelude::*;

verus! {

/// The seconds after which an unimportant memory that nobody recalled may be forgotten: thirty
/// days.
pub const DEFAULT_MAX_AGE_SECS: i64 = 2_592_000;

/// The bits of the importance below which a memory may be forgotten: one half.
pub const DEFAULT_FLOOR_BITS: u64 = 0x3FE0_0000_0000_0000;

/// When a memory that was not folded into a summary may be forgotten.
#[derive(Debug, Clone, Copy, PartialEq, Eq, Structural)]
pub struct PrunePolicy {
    /// Older than so many seconds,
    pub max_age_secs: i64,
    /// and less important than this.
    pub importance_floor: Real,
}

impl Default for PrunePolicy {
    fn default() -> (r: PrunePolicy)
        ensures
            r.max_age_secs == DEFAULT_MAX_AGE_SECS,
            r.importance_floor == (Real { bits: DEFAULT_FLOOR_BITS }),
    {
        PrunePolicy {
            max_age_secs: DEFAULT_MAX_AGE_SECS,
            importance_floor: Real { bits: DEFAULT_FLOOR_BITS },
        }
    }
}

/// The ids of the memories that a policy lets be forgotten.
pub open spec fn forgettable(rows: Seq<MemoryRowView>, scope: Option<Seq<char>>, policy: PrunePolicy, now: i64) -> Seq<i64> {
    selected(
        rows,
        prunable_rows(scope, policy.max_age_secs, policy.importance_floor, now),
        RowOrder::Stored,
        -1,
    ).map_values(|r: MemoryRowView| r.id)
}

impl Store {
    /// The ids of the memories that pruning would remove.
    pub fn plan_prune(&self, scope: Option<&str>, policy: &PrunePolicy, now: i64) -> (r: Vec<i64>)
        requires
            i64::MIN <= now - policy.max_age_secs <= i64::MAX,
        ensures
            r@ == forgettable(self@.memories, opt_str_view(scope), *policy, now),
    {
        self.prune_candidates(scope, policy.max_age_secs, policy.importance_floor, now)
    }

    /// Removes the memories that the policy lets be forgotten, and gives their number.
    pub fn prune(&mut self, scope: Option<&str>, policy: &PrunePolicy, now: i64) -> (r: u64)
        requires
            old(self)@.wf(),
            i64::MIN <= now - policy.max_age_secs <= i64::MAX,
        ensures
            ({
                let c = ConditionView::Ids(forgettable(old(self)@.memories, opt_str_view(scope), *policy, now));
                r == met_rows(old(self)@.memories, c).len() && final(self)@ == (StoreView {
                    memories: unmet_rows(old(self)@.memories, c),
                    ..old(self)@
                })
            }),
            final(self)@.wf(),
    {
        let ids = self.plan_prune(scope, policy, now);
        self.delete_memories(&ids)
    }
}

} // verus!
