//! What is told of a run of the assistant: reports, preferences, files and errors.
use crate::chat_history::store::{history_message, HistoryError};
use crate::gateway::error::{gateway_message, GatewayError};
use crate::gateway::upstream_error::{failure_label, UpstreamFailure};
use crate::memory::error::{memory_message, MemoryError};
use crate::memory::laws::conditions_sort_out;
use crate::memory::prune::{forgettable, PrunePolicy};
use crate::memory::queries::{met_rows, ConditionView};
use crate::memory::reports::{
    kind_counts_of, scope_counts_of, scopes_in, KindCountView, ScopeCountView,
};
use crate::memory::rows::folded_rows;
use crate::memory::sessions::{link_in, sessions_are_kept_by_scope, state_in, states_are_kept_by_scope, StateView};
use crate::memory::model::{kind_word, Snapshot};
use crate::memory::store::{MemoryRowView, StoreView};
use crate::orchestrator::role::Role;
use crate::orchestrator::router::{known_skill, role_word};
use crate::orchestrator::OrchestratorError;
use crate::paths::placed;
use crate::runtime::error::{fails_with, wukong_message, WukongError};
use crate::runtime::maintenance::{
    batch_lines, folds_in, folds_removed, kind_lines, number_list, plan_text, pruning_text, scope_lines, scopes_ahead,
    shown_ids, snapshot_tail, snapshot_text, AutoMaintenanceReport,
};
use crate::runtime::skill_assets::{aside, asset_root, documents, SkillSpec};
use crate::runtime::turn::{roles_named, skills_named, turn_counted};
use crate::scheduler::executor::{ClaimedJobOutcome, ExecutionOutput};
use crate::scheduler::job::{scheduler_message, SchedulerError};
use crate::schedulerd::daemon::{maintenance_said, outcome_said};
use crate::text::{decimal, has, parts_are_found, signed_decimal};
use vstd::prelude::*;

verus! {

// ---------------------------------------------------------------------------
// Reports
// ---------------------------------------------------------------------------

/// Every id is told, in order.
pub proof fn every_id_is_told(ids: Seq<i64>, next: i64)
    ensures
        number_list(Seq::<i64>::empty()).len() == 0,
        number_list(seq![next]) == signed_decimal(next as int),
        ids.len() > 0 ==> number_list(ids.push(next)) == number_list(ids) + ", "@ + signed_decimal(next as int),
        shown_ids(ids) == "["@ + number_list(ids) + "]"@,
{
    assert(ids.push(next).drop_last() =~= ids);
}

/// Every scope and every category is told with its count, on a line of its own.
pub proof fn every_count_is_told(c: Seq<ScopeCountView>, s: ScopeCountView, d: Seq<KindCountView>, k: KindCountView)
    ensures
        scope_lines(c.push(s)) == scope_lines(c) + "  "@ + s.scope + " = "@ + signed_decimal(s.count) + "\n"@,
        kind_lines(d.push(k)) == kind_lines(d) + "  "@ + kind_word(k.kind) + " = "@ + signed_decimal(k.count) + "\n"@,
        scope_lines(Seq::<ScopeCountView>::empty()).len() == 0,
        kind_lines(Seq::<KindCountView>::empty()).len() == 0,
{
    assert(c.push(s).drop_last() =~= c);
    assert(d.push(k).drop_last() =~= d);
}

/// Every batch of a plan is told with its number, its size and the ids of its memories.
pub proof fn every_batch_is_told(p: Seq<Seq<i64>>, b: Seq<i64>)
    ensures
        batch_lines(p.push(b)) == batch_lines(p) + "\n  批 "@ + decimal(p.len() + 1) + ": "@ + decimal(b.len())
            + " 筆來源 "@ + shown_ids(b),
        plan_text(p) == "[dry-run] 將產生 "@ + decimal(p.len()) + " 筆摘要:"@ + batch_lines(p),
{
    assert(p.push(b).drop_last() =~= p);
}

/// A trial tells which memories would go; the real thing tells how many went.
pub proof fn prunings_are_told(rows: Seq<MemoryRowView>, scope: Option<Seq<char>>, policy: PrunePolicy, now: i64)
    ensures
        ({
            let ids = forgettable(rows, scope, policy, now);
            &&& has(pruning_text(rows, scope, policy, now, true), shown_ids(ids))
            &&& has(
                pruning_text(rows, scope, policy, now, false),
                decimal(rows.filter(|r: MemoryRowView| ids.contains(r.id)).len()),
            )
        }),
{
    let ids = forgettable(rows, scope, policy, now);
    let c = ConditionView::Ids(ids);
    let h = "[dry-run] 將刪除 "@ + decimal(ids.len()) + " 筆: "@;
    parts_are_found(h, shown_ids(ids), Seq::empty());
    assert(h + shown_ids(ids) + Seq::<char>::empty() =~= pruning_text(rows, scope, policy, now, true));
    conditions_sort_out(rows, c);
    assert((|r: MemoryRowView| c.met(r)) =~= (|r: MemoryRowView| ids.contains(r.id)));
    parts_are_found("已刪除 "@, decimal(met_rows(rows, c).len()), " 筆"@);
}

// ---------------------------------------------------------------------------
// Maintenance
// ---------------------------------------------------------------------------

/// Every scope with memories is looked at, in order: the next one stands last in the list.
pub proof fn every_scope_is_looked_at(s: StoreView, i: int)
    requires
        0 <= i < scopes_in(s.memories).len(),
    ensures
        scopes_ahead(s).len() == scopes_in(s.memories).len(),
        scopes_ahead(s)[scopes_ahead(s).len() - 1 - i] == scopes_in(s.memories)[i],
{
}

/// Clearing a scope removes what was folded in it, counts it, and keeps all else.
pub proof fn clearing_removes_what_was_folded(s: StoreView, scope: Seq<char>)
    ensures
        folds_removed(s, scope).memories == s.memories.filter(|r: MemoryRowView| !folded_rows(Some(scope)).met(r)),
        folds_in(s, scope) == s.memories.filter(|r: MemoryRowView| folded_rows(Some(scope)).met(r)).len(),
        folds_removed(s, scope) == (StoreView { memories: folds_removed(s, scope).memories, ..s }),
{
    conditions_sort_out(s.memories, folded_rows(Some(scope)));
}

/// The end of a run is told with the job's id, and with what it said where it failed.
pub proof fn ends_of_runs_are_told(id: Seq<char>, o: ExecutionOutput)
    ensures
        o.success ==> outcome_said(id, ClaimedJobOutcome::Completed(o)) == "job "@ + id + " succeeded"@,
        !o.success ==> outcome_said(id, ClaimedJobOutcome::Completed(o)) == "job "@ + id + " failed: "@ + o.message@,
        outcome_said(id, ClaimedJobOutcome::LeaseLost(o)) == "warning: job "@ + id
            + " lease was taken by another worker before completion"@,
{
}

/// A maintenance is told with what it did.
pub proof fn maintenances_are_told(r: AutoMaintenanceReport)
    ensures
        has(maintenance_said(r), " summaries="@ + decimal(r.summaries_created as nat)),
        has(maintenance_said(r), " pruned="@ + decimal(r.memories_pruned as nat)),
        maintenance_said(r).take(
            "memory maintenance completed scopes="@.len() as int + decimal(r.scopes_checked as nat).len(),
        ) == "memory maintenance completed scopes="@ + decimal(r.scopes_checked as nat),
{
    let (a, b, c) = (
        decimal(r.scopes_checked as nat),
        decimal(r.summaries_created as nat),
        decimal(r.memories_pruned as nat),
    );
    let h = "memory maintenance completed scopes="@;
    let full = maintenance_said(r);
    parts_are_found(h + a, " summaries="@ + b, " pruned="@ + c);
    assert(h + a + (" summaries="@ + b) + (" pruned="@ + c) =~= full);
    parts_are_found(h + a + " summaries="@ + b, " pruned="@ + c, Seq::empty());
    assert(h + a + " summaries="@ + b + (" pruned="@ + c) + Seq::<char>::empty() =~= full);
    assert(full.take(h.len() as int + a.len()) =~= h + a);
}

// ---------------------------------------------------------------------------
// Preferences and files
// ---------------------------------------------------------------------------

/// The roles and skills that the user likes count where they are known, in order; the others are passed
/// over.
pub proof fn known_preferences_count(names: Seq<Seq<char>>, next: Seq<char>, role: Role)
    ensures
        role_word(next) == Some(role) ==> roles_named(names.push(next)) == roles_named(names).push(role),
        role_word(next) is None ==> roles_named(names.push(next)) == roles_named(names),
        known_skill(next) ==> skills_named(names.push(next)) == skills_named(names).push(next),
        !known_skill(next) ==> skills_named(names.push(next)) == skills_named(names),
        roles_named(Seq::<Seq<char>>::empty()).len() == 0 && skills_named(Seq::<Seq<char>>::empty()).len() == 0,
{
    assert(names.push(next).drop_last() =~= names);
}

/// A report tells every number of a snapshot under its own name.
pub proof fn snapshots_are_told_whole(s: Snapshot)
    ensures
        has(snapshot_text(s), "總計: "@ + signed_decimal(s.total as int)),
        has(snapshot_text(s), scope_lines(scope_counts_of(s.by_scope@))),
        has(snapshot_text(s), kind_lines(kind_counts_of(s.by_kind@))),
        has(snapshot_text(s), snapshot_tail(s)),
        has(snapshot_tail(s), "<1d="@ + signed_decimal(s.age.last_day as int) + " <7d="@),
        has(snapshot_tail(s), " <7d="@ + signed_decimal(s.age.last_week as int) + " <30d="@),
        has(snapshot_tail(s), " <30d="@ + signed_decimal(s.age.last_month as int) + " older="@),
        has(snapshot_tail(s), " older="@ + signed_decimal(s.age.older as int) + "\nembedding 覆蓋: "@),
        has(
            snapshot_tail(s),
            "\nembedding 覆蓋: "@ + signed_decimal(s.embedding.embedded as int) + "/"@ + signed_decimal(
                s.embedding.total as int,
            ) + "\nconsolidation 候選: "@,
        ),
        has(
            snapshot_tail(s),
            "\nconsolidation 候選: "@ + signed_decimal(s.consolidation_candidates as int) + "\nprune 候選: "@
                + signed_decimal(s.prune_candidates as int),
        ),
{
    let e = Seq::<char>::empty();
    let total = "總計: "@ + signed_decimal(s.total as int);
    let scopes = scope_lines(scope_counts_of(s.by_scope@));
    let kinds = kind_lines(kind_counts_of(s.by_kind@));
    let tail = snapshot_tail(s);
    let text = snapshot_text(s);
    let m1 = "\n依範圍:\n"@;
    let m2 = "依類型:\n"@;
    parts_are_found(e, total, m1 + scopes + m2 + kinds + tail);
    assert(e + total + (m1 + scopes + m2 + kinds + tail) =~= text);
    parts_are_found(total + m1, scopes, m2 + kinds + tail);
    assert(total + m1 + scopes + (m2 + kinds + tail) =~= text);
    parts_are_found(total + m1 + scopes + m2, kinds, tail);
    parts_are_found(total + m1 + scopes + m2 + kinds, tail, e);
    assert(total + m1 + scopes + m2 + kinds + tail + e =~= text);
    numbers_are_told(s);
}

proof fn numbers_are_told(s: Snapshot)
    ensures
        has(snapshot_tail(s), "<1d="@ + signed_decimal(s.age.last_day as int) + " <7d="@),
        has(snapshot_tail(s), " <7d="@ + signed_decimal(s.age.last_week as int) + " <30d="@),
        has(snapshot_tail(s), " <30d="@ + signed_decimal(s.age.last_month as int) + " older="@),
        has(snapshot_tail(s), " older="@ + signed_decimal(s.age.older as int) + "\nembedding 覆蓋: "@),
        has(
            snapshot_tail(s),
            "\nembedding 覆蓋: "@ + signed_decimal(s.embedding.embedded as int) + "/"@ + signed_decimal(
                s.embedding.total as int,
            ) + "\nconsolidation 候選: "@,
        ),
        has(
            snapshot_tail(s),
            "\nconsolidation 候選: "@ + signed_decimal(s.consolidation_candidates as int) + "\nprune 候選: "@
                + signed_decimal(s.prune_candidates as int),
        ),
{
    let head = "年齡: "@;
    assert("年齡: <1d="@ =~= head + "<1d="@) by {
        reveal_strlit("年齡: <1d=");
        reveal_strlit("年齡: ");
        reveal_strlit("<1d=");
    }
    let d1 = signed_decimal(s.age.last_day as int);
    let d2 = signed_decimal(s.age.last_week as int);
    let d3 = signed_decimal(s.age.last_month as int);
    let d4 = signed_decimal(s.age.older as int);
    let d5 = signed_decimal(s.embedding.embedded as int);
    let d6 = signed_decimal(s.embedding.total as int);
    let d7 = signed_decimal(s.consolidation_candidates as int);
    let d8 = signed_decimal(s.prune_candidates as int);
    let (l1, l2, l3, l4) = ("<1d="@, " <7d="@, " <30d="@, " older="@);
    let (l5, l6, l7, l8) = ("\nembedding 覆蓋: "@, "/"@, "\nconsolidation 候選: "@, "\nprune 候選: "@);
    let front = head + l1 + d1 + l2 + d2 + l3 + d3 + l4 + d4;
    let rest = d5 + l6 + d6 + l7 + d7 + l8 + d8;
    assert(snapshot_tail(s) =~= front + l5 + d5 + l6 + d6 + l7 + d7 + l8 + d8);
    ages_are_told(head, l1, d1, l2, d2, l3, d3, l4, d4, l5, rest);
    coverage_is_told(front, l5, d5, l6, d6, l7, d7, l8, d8);
    assert(front + l5 + rest =~= front + l5 + d5 + l6 + d6 + l7 + d7 + l8 + d8);
}

proof fn ages_are_told(
    head: Seq<char>,
    l1: Seq<char>,
    d1: Seq<char>,
    l2: Seq<char>,
    d2: Seq<char>,
    l3: Seq<char>,
    d3: Seq<char>,
    l4: Seq<char>,
    d4: Seq<char>,
    l5: Seq<char>,
    rest: Seq<char>,
)
    ensures
        has(head + l1 + d1 + l2 + d2 + l3 + d3 + l4 + d4 + l5 + rest, l1 + d1 + l2),
        has(head + l1 + d1 + l2 + d2 + l3 + d3 + l4 + d4 + l5 + rest, l2 + d2 + l3),
        has(head + l1 + d1 + l2 + d2 + l3 + d3 + l4 + d4 + l5 + rest, l3 + d3 + l4),
        has(head + l1 + d1 + l2 + d2 + l3 + d3 + l4 + d4 + l5 + rest, l4 + d4 + l5),
{
    let h1 = head;
    let h2 = h1 + l1 + d1;
    let h3 = h2 + l2 + d2;
    let h4 = h3 + l3 + d3;
    let all = h4 + l4 + d4 + l5 + rest;
    label_is_told(h4, l4, d4, l5, rest);
    let r3 = d4 + l5 + rest;
    label_is_told(h3, l3, d3, l4, r3);
    assert(h3 + l3 + d3 + l4 + r3 =~= all);
    let r2 = d3 + l4 + r3;
    label_is_told(h2, l2, d2, l3, r2);
    assert(h2 + l2 + d2 + l3 + r2 =~= h3 + l3 + d3 + l4 + r3);
    let r1 = d2 + l3 + r2;
    label_is_told(h1, l1, d1, l2, r1);
    assert(h1 + l1 + d1 + l2 + r1 =~= h2 + l2 + d2 + l3 + r2);
}

proof fn label_is_told(h: Seq<char>, l: Seq<char>, d: Seq<char>, m: Seq<char>, r: Seq<char>)
    ensures
        has(h + l + d + m + r, l + d + m),
{
    parts_are_found(h, l + d + m, r);
    assert(h + (l + d + m) + r =~= h + l + d + m + r);
}

proof fn coverage_is_told(
    front: Seq<char>,
    l5: Seq<char>,
    d5: Seq<char>,
    l6: Seq<char>,
    d6: Seq<char>,
    l7: Seq<char>,
    d7: Seq<char>,
    l8: Seq<char>,
    d8: Seq<char>,
)
    ensures
        has(front + l5 + d5 + l6 + d6 + l7 + d7 + l8 + d8, l5 + d5 + l6 + d6 + l7),
        has(front + l5 + d5 + l6 + d6 + l7 + d7 + l8 + d8, l7 + d7 + l8 + d8),
{
    let x = d5 + l6 + d6;
    let y = d7 + l8 + d8;
    let h = front + l5 + d5 + l6 + d6;
    assert(front + l5 + x =~= h);
    label_is_told(front, l5, x, l7, y);
    assert(l5 + x + l7 =~= l5 + d5 + l6 + d6 + l7);
    last_is_told(h, l7, d7, l8 + d8);
    assert(l7 + d7 + (l8 + d8) =~= l7 + d7 + l8 + d8);
    assert(h + l7 + d7 + (l8 + d8) =~= h + l7 + d7 + l8 + d8);
    assert(h + l7 + y =~= h + l7 + d7 + l8 + d8);
}

proof fn last_is_told(h: Seq<char>, l: Seq<char>, d: Seq<char>, m: Seq<char>)
    ensures
        has(h + l + d + m, l + d + m),
{
    label_is_told(h, l, d, m, Seq::empty());
    assert(h + l + d + m + Seq::<char>::empty() =~= h + l + d + m);
}

/// What is put aside stands beside the documents in the workspace, under the number of its process.
pub proof fn what_is_put_aside_is_told_apart(workspace: Seq<char>, label: Seq<char>, process: u32)
    requires
        workspace.len() > 0,
        workspace.last() != '/',
        label.len() > 0,
        label[0] != '/',
    ensures
        aside(workspace, label, process) == workspace + "/.wukong/skills/"@ + label + decimal(process as nat),
        asset_root(workspace) == workspace + "/.wukong/skills/superpowers"@,
{
    let name = label + decimal(process as nat);
    reveal_strlit("/");
    reveal_strlit(".wukong/skills");
    reveal_strlit("/.wukong/skills/");
    reveal_strlit(".wukong/skills/superpowers");
    reveal_strlit("/.wukong/skills/superpowers");
    assert(name[0] == label[0]);
    assert("/.wukong/skills/"@ =~= "/"@ + ".wukong/skills"@ + "/"@);
    assert("/.wukong/skills/superpowers"@ =~= "/"@ + ".wukong/skills/superpowers"@);
    let dir = placed(workspace, ".wukong/skills"@);
    assert(dir =~= workspace + "/"@ + ".wukong/skills"@);
    assert(aside(workspace, label, process) =~= workspace + "/.wukong/skills/"@ + label + decimal(process as nat));
    assert(asset_root(workspace) =~= workspace + "/.wukong/skills/superpowers"@);
}

/// Every skill has a document of its own, below its name, with its content.
pub proof fn every_skill_has_its_document(dir: Seq<char>, skills: Seq<SkillSpec>, i: int)
    requires
        0 <= i < skills.len(),
    ensures
        documents(dir, skills).len() == skills.len(),
        documents(dir, skills)[i].0 == placed(placed(dir, skills[i].name@), "SKILL.md"@),
        documents(dir, skills)[i].1 == skills[i].content@,
        asset_root(dir) == placed(dir, ".wukong/skills/superpowers"@),
{
}

/// A turn that ran without a session leaves the scope without one.
pub proof fn turns_without_a_session_leave_none(s: StoreView, v: StateView, now: i64)
    requires
        v.session_id is None,
        v.turn_count < i64::MAX,
    ensures
        ({
            let t = turn_counted(s, v, None, v.scope, now);
            &&& t.sessions == s.sessions
            &&& t.memories == s.memories
            &&& state_in(t.states, v.scope) is Some
            &&& state_in(t.states, v.scope)->0.session_id is None
            &&& state_in(t.states, v.scope)->0.turn_count == v.turn_count + 1
        }),
{
    states_are_kept_by_scope(s.states, crate::memory::sessions::turn_finished(v, None, now), v.scope);
}

/// A turn that is counted leaves its session to the scope: in its state, with one turn more and no lease,
/// and as the session that the scope continues.
pub proof fn counted_turns_leave_their_session(s: StoreView, v: StateView, id: Seq<char>, now: i64)
    requires
        v.turn_count < i64::MAX,
    ensures
        ({
            let t = turn_counted(s, v, Some(id), v.scope, now);
            &&& state_in(t.states, v.scope) is Some && link_in(t.sessions, v.scope) is Some
            &&& state_in(t.states, v.scope)->0.session_id == Some(id)
            &&& state_in(t.states, v.scope)->0.turn_count == v.turn_count + 1
            &&& state_in(t.states, v.scope)->0.lease_owner is None
            &&& link_in(t.sessions, v.scope)->0.session_id == id
            &&& t.memories == s.memories
        }),
{
    let done = crate::memory::sessions::turn_finished(v, Some(id), now);
    states_are_kept_by_scope(s.states, done, v.scope);
    sessions_are_kept_by_scope(
        s.sessions,
        crate::memory::sessions::LinkView { scope: v.scope, session_id: id, updated_at: now },
        v.scope,
    );
}

// ---------------------------------------------------------------------------
// Errors
// ---------------------------------------------------------------------------

/// What went wrong inside is told by every error around it.
pub proof fn errors_tell_what_went_wrong(m: MemoryError, g: GatewayError)
    ensures
        has(wukong_message(WukongError::Memory(m)), memory_message(m)),
        has(wukong_message(WukongError::Backend(g)), gateway_message(g)),
        has(wukong_message(WukongError::Orchestrator(OrchestratorError::Backend(g))), gateway_message(g)),
        has(gateway_message(GatewayError::Memory(m)), memory_message(m)),
{
    let e = Seq::<char>::empty();
    let (a, b) = (memory_message(m), gateway_message(g));
    parts_are_found("memory error: "@, a, e);
    assert("memory error: "@ + a + e =~= "memory error: "@ + a);
    parts_are_found("backend error: "@, b, e);
    assert("backend error: "@ + b + e =~= "backend error: "@ + b);
    parts_are_found("orchestrator error: "@ + "backend error: "@, b, e);
    assert("orchestrator error: "@ + "backend error: "@ + b + e =~= "orchestrator error: "@ + ("backend error: "@ + b));
}

/// The errors of the memory tell their cause.
pub proof fn memory_errors_tell_their_cause(s: String)
    ensures
        memory_message(MemoryError::Db(s)) == "database error: "@ + s@,
        memory_message(MemoryError::InvalidScope(s)) == "invalid scope: "@ + s@,
        memory_message(MemoryError::InvalidQuery(s)) == "invalid query: "@ + s@,
        memory_message(MemoryError::Serialize(s)) == "serialization error: "@ + s@,
        memory_message(MemoryError::Embed(s)) == "embedding error: "@ + s@,
        memory_message(MemoryError::Io(s)) == "io error: "@ + s@,
        memory_message(MemoryError::Other(s)) == s@,
        memory_message(MemoryError::NotFound) == "not found"@,
{
}

/// The errors of the agent tell their code and what it said.
pub proof fn agent_errors_tell_their_cause(c: i32, s: String)
    ensures
        gateway_message(GatewayError::AgentFailed { code: Some(c), stderr: s }) == "agent command failed (code "@ + ("Some("@
            + signed_decimal(c as int) + ")"@) + "): "@ + s@,
        gateway_message(GatewayError::AgentFailed { code: None, stderr: s }) == "agent command failed (code "@ + "None"@
            + "): "@ + s@,
        gateway_message(GatewayError::Io(s)) == "io error: "@ + s@,
        forall|kind: UpstreamFailure, status_code: Option<u16>| #[trigger]
            gateway_message(GatewayError::UpstreamFailed { kind, status_code, detail: s }) == "上游模型錯誤（"@ + failure_label(
                kind,
            ) + "）："@ + s@,
        fails_with(WukongError::Backend(GatewayError::AgentFailed { code: None, stderr: s }), s@),
{
}

/// The errors of the scheduler tell their cause.
pub proof fn scheduler_errors_tell_their_cause(s: String, x: String, t: i64)
    ensures
        scheduler_message(SchedulerError::InvalidCronFieldCount(x)) == "cron expression must have 5 fields: "@ + x@,
        scheduler_message(SchedulerError::InvalidCron { expr: x, source: s }) == "invalid cron expression '"@ + x@ + "': "@
            + s@,
        scheduler_message(SchedulerError::InvalidTimestamp(t)) == "invalid timestamp: "@ + signed_decimal(t as int),
        scheduler_message(SchedulerError::Sqlx(s)) == "scheduler db: "@ + s@,
        scheduler_message(SchedulerError::Json(s)) == "scheduler json: "@ + s@,
        scheduler_message(SchedulerError::UnknownJobKind(s)) == "unknown scheduler job kind: "@ + s@,
        scheduler_message(SchedulerError::UnknownRunStatus(s)) == "unknown scheduler run status: "@ + s@,
        history_message(HistoryError::UnknownThread) == "chat history: unknown thread"@,
        history_message(HistoryError::UnknownMessage) == "chat history: unknown message"@,
{
}

} // verus!
