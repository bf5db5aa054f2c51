//! What a command line does with the memory and the jobs.
use crate::gateway::cli::{Cli, Command, MemoryOp, ScheduleMaintenanceTaskArg, ScheduleOp};
use crate::gateway::config::{either_text, GatewayConfig};
use crate::memory::consolidate::{batches_in, ids_of, ConsolidatePolicy, DEFAULT_BATCH_SIZE};
use crate::memory::error::MemoryError;
use crate::memory::model::{ConsolidationRowView, Snapshot};
use crate::memory::prune::{forgettable, PrunePolicy, DEFAULT_FLOOR_BITS, DEFAULT_MAX_AGE_SECS};
use crate::memory::queries::{unmet_rows, ConditionView};
use crate::memory::reports::is_snapshot;
use crate::memory::store::{Store, StoreView};
use crate::order::Real;
use crate::runtime::error::WukongError;
use crate::runtime::maintenance::{
    consolidation_plan_text, memory_prune, memory_snapshot, plan_text, pruning_text, snapshot_text,
};
use crate::scheduler::executor::ClaimedJobOutcome;
use crate::scheduler::job::{
    jobs_of, next_run, scheduler_message, Fault, Job, JobKind, JobKindView, JobView, MaintenanceTask, NewJob, SchedulerError,
    LAST_MOMENT,
};
use crate::scheduler::store::{
    listed, locked, new_row, newest_runs, row_in, runs_of, status_word, switched, unlocked, with_row, without_job, without_runs, JobRun,
    RunView, SchedulerStore, SchedulerView, ID_TAKEN_TEXT,
};
use crate::text::{
    borrowed, chars_of, decimal, decimal_of, joined, opt_str_view, opt_text, push_text, signed_decimal, signed_decimal_of,
    string_of, texts, trimmed,
};
use vstd::prelude::*;

verus! {

// ---------------------------------------------------------------------------
// What a command line is about
// ---------------------------------------------------------------------------

/// What a command line is about.
#[derive(Debug, Clone, PartialEq, Eq)]
pub enum CliMode<'a> {
    Memory(&'a MemoryOp),
    Schedule(&'a ScheduleOp),
    /// A talk line by line.
    Repl,
    /// One question.
    Once(String),
}

/// What a command line is about: its command, else its question, else a talk.
pub fn cli_mode(cli: &Cli) -> (r: CliMode<'_>)
    ensures
        match cli.command {
            Some(Command::Memory { op }) => r == CliMode::Memory(&op),
            Some(Command::Schedule { op }) => r == CliMode::Schedule(&op),
            None => {
                let prompt = joined(texts(cli.prompt@), " "@);
                if prompt.len() == 0 {
                    r is Repl
                } else {
                    r matches CliMode::Once(t) && t@ == prompt
                }
            },
        },
{
    match &cli.command {
        Some(Command::Memory { op }) => CliMode::Memory(op),
        Some(Command::Schedule { op }) => CliMode::Schedule(op),
        None => {
            let t = cli.prompt_text();
            if t.as_str().is_empty() {
                CliMode::Repl
            } else {
                CliMode::Once(t)
            }
        },
    }
}

/// Sets what the stored settings say: the usual model, and what the planner prefers.
pub fn apply_settings_to_config(
    cfg: &mut GatewayConfig,
    default_model: Option<&str>,
    preferences_enabled: bool,
    roles: Vec<String>,
    skills: Vec<String>,
)
    ensures
        opt_text(final(cfg).default_model) == (match default_model {
            Some(m) => if trimmed(m@).len() > 0 {
                Some(trimmed(m@))
            } else {
                None
            },
            None => None,
        }),
        match final(cfg).planner_preferences {
            Some(p) => preferences_enabled && p.preferred_roles == roles && p.preferred_skills == skills,
            None => !preferences_enabled,
        },
        *final(cfg) == (GatewayConfig {
            default_model: final(cfg).default_model,
            planner_preferences: final(cfg).planner_preferences,
            ..*old(cfg)
        }),
{
    cfg.apply_default_model(default_model);
    cfg.apply_planner_preferences(preferences_enabled, roles, skills);
}

// ---------------------------------------------------------------------------
// The jobs
// ---------------------------------------------------------------------------

/// The task of a word of the command line.
pub open spec fn task_of(arg: ScheduleMaintenanceTaskArg) -> MaintenanceTask {
    match arg {
        ScheduleMaintenanceTaskArg::Snapshot => MaintenanceTask::Snapshot,
        ScheduleMaintenanceTaskArg::Consolidate => MaintenanceTask::Consolidate,
        ScheduleMaintenanceTaskArg::Prune => MaintenanceTask::Prune,
    }
}

/// The task of a word of the command line.
pub fn map_maintenance_task(task: ScheduleMaintenanceTaskArg) -> (r: MaintenanceTask)
    ensures
        r == task_of(task),
{
    match task {
        ScheduleMaintenanceTaskArg::Snapshot => MaintenanceTask::Snapshot,
        ScheduleMaintenanceTaskArg::Consolidate => MaintenanceTask::Consolidate,
        ScheduleMaintenanceTaskArg::Prune => MaintenanceTask::Prune,
    }
}

/// The name of a task.
pub open spec fn task_name(task: MaintenanceTask) -> Seq<char> {
    match task {
        MaintenanceTask::Snapshot => "Snapshot"@,
        MaintenanceTask::Consolidate => "Consolidate"@,
        MaintenanceTask::Prune => "Prune"@,
    }
}

/// How the kind of a job is told.
pub open spec fn kind_told(kind: JobKindView) -> Seq<char> {
    match kind {
        JobKindView::Turn { scope, .. } => "turn(scope="@ + scope + ")"@,
        JobKindView::Maintenance { scope, task } => "maintenance(task="@ + task_name(task) + ",scope="@ + (match scope {
            Some(s) => s,
            None => "<all>"@,
        }) + ")"@,
    }
}

/// How the kind of a job is told.
pub fn describe_job_kind(kind: &JobKind) -> (r: String)
    ensures
        r@ == kind_told(kind@),
{
    match kind {
        JobKind::Turn { scope, .. } => {
            let mut s = String::from_str("turn(scope=");
            s.append(scope.as_str());
            s.append(")");
            s
        },
        JobKind::Maintenance { scope, task } => {
            let mut s = String::from_str("maintenance(task=");
            s.append(
                match task {
                    MaintenanceTask::Snapshot => "Snapshot",
                    MaintenanceTask::Consolidate => "Consolidate",
                    MaintenanceTask::Prune => "Prune",
                },
            );
            s.append(",scope=");
            match scope {
                Some(x) => {
                    s.append(x.as_str());
                },
                None => {
                    s.append("<all>");
                },
            }
            s.append(")");
            s
        },
    }
}

/// A moment as text; a dash where there is none.
pub open spec fn moment_told(ts: Option<i64>) -> Seq<char> {
    match ts {
        Some(t) => signed_decimal(t as int),
        None => "-"@,
    }
}

/// A moment as text; a dash where there is none.
pub fn format_opt_ts(ts: Option<i64>) -> (r: String)
    ensures
        r@ == moment_told(ts),
{
    match ts {
        Some(t) => signed_decimal_of(t),
        None => "-".to_owned(),
    }
}

/// The line of a job.
pub open spec fn job_line(j: JobView) -> Seq<char> {
    j.id + "\tenabled="@ + (if j.enabled {
        "true"@
    } else {
        "false"@
    }) + "\tcron="@ + j.cron + "\tnext="@ + moment_told(j.next_run_at) + "\tname="@ + j.name + "\tkind="@ + kind_told(j.kind)
}

fn line_of_job(j: &Job) -> (r: String)
    ensures
        r@ == job_line(j@),
{
    let mut s = j.id.clone();
    s.append("\tenabled=");
    if j.enabled {
        s.append("true");
    } else {
        s.append("false");
    }
    s.append("\tcron=");
    s.append(j.cron.as_str());
    s.append("\tnext=");
    let next = format_opt_ts(j.next_run_at);
    s.append(next.as_str());
    s.append("\tname=");
    s.append(j.name.as_str());
    s.append("\tkind=");
    let kind = describe_job_kind(&j.kind);
    s.append(kind.as_str());
    s
}

/// A text in one line.
pub open spec fn in_one_line(s: Seq<char>) -> Seq<char> {
    s.map_values(
        |c: char|
            if c == '\n' {
                ' '
            } else {
                c
            },
    )
}

fn one_line(s: &str) -> (r: String)
    ensures
        r@ == in_one_line(s@),
{
    let v = chars_of(s);
    let ghost goal = in_one_line(s@);
    let mut out: Vec<char> = Vec::new();
    let mut i: usize = 0;
    while i < v.len()
        invariant
            i <= v.len(),
            v@ == s@,
            goal == in_one_line(s@),
            out@ == goal.take(i as int),
        decreases v.len() - i,
    {
        let c = v[i];
        out.push(
            if c == '\n' {
                ' '
            } else {
                c
            },
        );
        assert(goal.take(i + 1) =~= goal.take(i as int).push(goal[i as int]));
        i = i + 1;
    }
    assert(goal.take(i as int) =~= goal);
    string_of(out.as_slice())
}

/// The line of a run.
pub open spec fn run_line(r: RunView) -> Seq<char> {
    signed_decimal(r.id as int) + "\tjob="@ + r.job_id + "\tstatus="@ + status_word(r.status) + "\tstarted="@ + signed_decimal(
        r.started_at as int,
    ) + "\tfinished="@ + moment_told(r.finished_at) + "\t"@ + in_one_line(r.message)
}

fn line_of_run(run: &JobRun) -> (r: String)
    ensures
        r@ == run_line(run@),
{
    let mut s = signed_decimal_of(run.id);
    s.append("\tjob=");
    s.append(run.job_id.as_str());
    s.append("\tstatus=");
    s.append(run.status.as_str());
    s.append("\tstarted=");
    let started = signed_decimal_of(run.started_at);
    s.append(started.as_str());
    s.append("\tfinished=");
    let finished = format_opt_ts(run.finished_at);
    s.append(finished.as_str());
    s.append("\t");
    let message = one_line(run.message.as_str());
    s.append(message.as_str());
    s
}

/// The error carries a text and nothing else.
pub open spec fn only_says(e: WukongError, text: Seq<char>) -> bool {
    e matches WukongError::Memory(m) && m matches MemoryError::Other(t) && t@ == text
}

fn to_wukong_error_string(message: String) -> (r: WukongError)
    ensures
        only_says(r, message@),
{
    WukongError::Memory(MemoryError::Other(message))
}

/// The error of the scheduler as an error of the assistant.
pub fn to_wukong_error(err: &SchedulerError) -> (r: WukongError)
    ensures
        only_says(r, scheduler_message(*err)),
{
    to_wukong_error_string(err.message())
}

/// The text of a fault of a schedule.
pub open spec fn fault_told(f: Fault, expr: Seq<char>, after: i64) -> Seq<char> {
    match f {
        Fault::FieldCount => "cron expression must have 5 fields: "@ + expr,
        Fault::Expression(m) => "invalid cron expression '"@ + expr + "': "@ + m,
        Fault::Moment => "invalid timestamp: "@ + signed_decimal(after as int),
    }
}

/// What is left to do about the jobs.
#[derive(Debug, Clone, PartialEq, Eq)]
pub enum ScheduleOutcome {
    /// Say these lines.
    Say(Vec<String>),
    /// Run this job, which the worker has locked.
    Run { job: Job, worker_id: String },
}

/// The lines are said and nothing else is left to do.
pub open spec fn says(r: Result<ScheduleOutcome, WukongError>, said: Seq<Seq<char>>) -> bool {
    r matches Ok(o) && o matches ScheduleOutcome::Say(v) && texts(v@) == said
}

/// The job that a command line asks for.
pub open spec fn asked_job(op: ScheduleOp) -> Option<NewJob> {
    match op {
        ScheduleOp::AddTurn { name, cron, scope, prompt } => Some(
            NewJob { name, kind: JobKind::Turn { scope, prompt }, cron },
        ),
        ScheduleOp::AddMaintenance { name, cron, scope, task } => Some(
            NewJob { name, kind: JobKind::Maintenance { scope, task: task_of(task) }, cron },
        ),
        _ => None,
    }
}

/// The line about a new job.
pub open spec fn created_line(id: Seq<char>, next: Option<i64>) -> Seq<char> {
    "已建立排程: "@ + id + " next="@ + moment_told(next)
}

/// The job was added under an id, or there is a reason why not.
pub open spec fn job_added(
    before: SchedulerView,
    after: SchedulerView,
    input: NewJob,
    now: i64,
    r: Result<ScheduleOutcome, WukongError>,
) -> bool {
    match next_run(input.cron@, now) {
        Err(f) => after == before && (r matches Err(e) && only_says(e, fault_told(f, input.cron@, now))),
        Ok(next) => match r {
            Err(e) => after == before && before.jobs.len() > 0 && only_says(e, "scheduler db: "@ + ID_TAKEN_TEXT@),
            Ok(_) => exists|id: Seq<char>| #[trigger]
                says(r, seq![created_line(id, new_row(id, input, next, now).job.next_run_at)]) && after == (SchedulerView {
                    jobs: before.jobs.push(new_row(id, input, next, now)),
                    ..before
                }),
        },
    }
}

/// The switch was set, or there is a reason why not.
pub open spec fn switch_set(
    before: SchedulerView,
    after: SchedulerView,
    id: Seq<char>,
    enabled: bool,
    now: i64,
    r: Result<ScheduleOutcome, WukongError>,
) -> bool {
    match row_in(before.jobs, id) {
        None => after == before && says(r, seq!["找不到排程"@]),
        Some(row) => {
            let next = if enabled {
                next_run(row.job.cron, now)
            } else {
                Ok(None)
            };
            match next {
                Err(f) => after == before && (r matches Err(e) && only_says(e, fault_told(f, row.job.cron, now))),
                Ok(n) => says(
                    r,
                    seq![
                        if enabled {
                            "已啟用排程"@
                        } else {
                            "已停用排程"@
                        },
                    ],
                ) && after == (SchedulerView {
                    jobs: with_row(before.jobs, switched(row, enabled, n, now)),
                    ..before
                }),
            }
        },
    }
}

/// What an operation on the jobs does.
pub open spec fn schedule_done(
    before: SchedulerView,
    after: SchedulerView,
    op: ScheduleOp,
    now: i64,
    process: u32,
    r: Result<ScheduleOutcome, WukongError>,
) -> bool {
    match op {
        ScheduleOp::List => after == before && says(r, listed(before.jobs).map_values(|j: JobView| job_line(j))),
        ScheduleOp::Rm { id } => if row_in(before.jobs, id@) is Some {
            says(r, seq!["已刪除排程"@]) && after == (SchedulerView {
                jobs: without_job(before.jobs, id@),
                runs: without_runs(before.runs, id@),
                ..before
            })
        } else {
            says(r, seq!["找不到排程"@]) && after == before
        },
        ScheduleOp::Enable { id } => switch_set(before, after, id@, true, now, r),
        ScheduleOp::Disable { id } => switch_set(before, after, id@, false, now, r),
        ScheduleOp::Trigger { id } => {
            let row = row_in(before.jobs, id@);
            let worker = "manual-"@ + decimal(process as nat);
            if row is Some && row->0.job.enabled && unlocked(row->0, now) {
                &&& r matches Ok(o) && o matches ScheduleOutcome::Run { job, worker_id } && job@ == row->0.job
                    && worker_id@ == worker
                &&& after == (SchedulerView {
                    jobs: with_row(before.jobs, locked(row->0, worker, now, 300)),
                    ..before
                })
            } else {
                says(r, seq!["找不到排程"@]) && after == before
            }
        },
        ScheduleOp::Runs { id, limit } => after == before && says(
            r,
            newest_runs(before.runs, opt_text(id), limit as int).map_values(|x: RunView| run_line(x)),
        ),
        _ => job_added(before, after, asked_job(op)->0, now, r),
    }
}

fn say(line: &str) -> (r: Result<ScheduleOutcome, WukongError>)
    ensures
        says(r, seq![line@]),
{
    let mut v: Vec<String> = Vec::new();
    push_text(&mut v, line);
    assert(texts(v@) =~= seq![line@]);
    Ok(ScheduleOutcome::Say(v))
}

fn add_named(store: &mut SchedulerStore, input: NewJob, now: i64) -> (r: Result<ScheduleOutcome, WukongError>)
    requires
        old(store)@.wf(),
        now != LAST_MOMENT,
    ensures
        final(store)@.wf(),
        job_added(old(store)@, final(store)@, input, now, r),
{
    match store.add_job(input, now) {
        Err(e) => Err(to_wukong_error(&e)),
        Ok(j) => {
            let mut s = String::from_str("已建立排程: ");
            s.append(j.id.as_str());
            s.append(" next=");
            let next = format_opt_ts(j.next_run_at);
            s.append(next.as_str());
            let r = say(s.as_str());
            assert(s@ == created_line(j@.id, j@.next_run_at));
            proof {
                let n = next_run(input.cron@, now)->Ok_0;
                assert(j@ == new_row(j@.id, input, n, now).job);
                assert(says(r, seq![created_line(j@.id, new_row(j@.id, input, n, now).job.next_run_at)]));
            }
            r
        },
    }
}

fn switch(store: &mut SchedulerStore, id: &str, enabled: bool, now: i64) -> (r: Result<ScheduleOutcome, WukongError>)
    requires
        old(store)@.wf(),
        now != LAST_MOMENT,
    ensures
        final(store)@.wf(),
        switch_set(old(store)@, final(store)@, id@, enabled, now, r),
{
    match store.set_enabled(id, enabled, now) {
        Err(e) => Err(to_wukong_error(&e)),
        Ok(changed) => if !changed {
            say("找不到排程")
        } else if enabled {
            say("已啟用排程")
        } else {
            say("已停用排程")
        },
    }
}

/// Carries out an operation on the jobs, and says what is left to do.
pub fn run_schedule_op(store: &mut SchedulerStore, op: &ScheduleOp, now: i64, process: u32) -> (r: Result<
    ScheduleOutcome,
    WukongError,
>)
    requires
        old(store)@.wf(),
        now != LAST_MOMENT,
        now + 300 <= i64::MAX,
    ensures
        final(store)@.wf(),
        schedule_done(old(store)@, final(store)@, *op, now, process, r),
{
    match op {
        ScheduleOp::List => {
            let jobs = store.list_jobs();
            let ghost goal = listed(store@.jobs).map_values(|j: JobView| job_line(j));
            let mut v: Vec<String> = Vec::new();
            let mut i: usize = 0;
            while i < jobs.len()
                invariant
                    i <= jobs.len(),
                    goal == jobs_of(jobs@).map_values(|j: JobView| job_line(j)),
                    texts(v@) == goal.take(i as int),
                decreases jobs.len() - i,
            {
                let line = line_of_job(&jobs[i]);
                push_text(&mut v, line.as_str());
                assert(goal.take(i + 1) =~= goal.take(i as int).push(goal[i as int]));
                i = i + 1;
            }
            assert(goal.take(i as int) =~= goal);
            Ok(ScheduleOutcome::Say(v))
        },
        ScheduleOp::AddTurn { name, cron, scope, prompt } => add_named(
            store,
            NewJob {
                name: name.clone(),
                kind: JobKind::Turn { scope: scope.clone(), prompt: prompt.clone() },
                cron: cron.clone(),
            },
            now,
        ),
        ScheduleOp::AddMaintenance { name, cron, scope, task } => add_named(
            store,
            NewJob {
                name: name.clone(),
                kind: JobKind::Maintenance { scope: scope.clone(), task: map_maintenance_task(*task) },
                cron: cron.clone(),
            },
            now,
        ),
        ScheduleOp::Rm { id } => if store.remove_job(id.as_str()) {
            say("已刪除排程")
        } else {
            say("找不到排程")
        },
        ScheduleOp::Enable { id } => switch(store, id.as_str(), true, now),
        ScheduleOp::Disable { id } => switch(store, id.as_str(), false, now),
        ScheduleOp::Trigger { id } => {
            let mut worker_id = String::from_str("manual-");
            let p = decimal_of(process as u64);
            worker_id.append(p.as_str());
            match store.claim_job(id.as_str(), now, worker_id.as_str(), 300) {
                Some(job) => Ok(ScheduleOutcome::Run { job, worker_id }),
                None => say("找不到排程"),
            }
        },
        ScheduleOp::Runs { id, limit } => {
            let runs = store.recent_runs(borrowed(id), *limit);
            let ghost goal = newest_runs(store@.runs, opt_text(*id), *limit as int).map_values(|x: RunView| run_line(x));
            let mut v: Vec<String> = Vec::new();
            let mut i: usize = 0;
            while i < runs.len()
                invariant
                    i <= runs.len(),
                    goal == runs_of(runs@).map_values(|x: RunView| run_line(x)),
                    texts(v@) == goal.take(i as int),
                decreases runs.len() - i,
            {
                let line = line_of_run(&runs[i]);
                push_text(&mut v, line.as_str());
                assert(goal.take(i + 1) =~= goal.take(i as int).push(goal[i as int]));
                i = i + 1;
            }
            assert(goal.take(i as int) =~= goal);
            Ok(ScheduleOutcome::Say(v))
        },
    }
}

/// How a job that was run by hand ended: what is said, and whether it failed.
pub fn trigger_result(outcome: ClaimedJobOutcome) -> (r: (Option<String>, Result<(), WukongError>))
    ensures
        match outcome {
            ClaimedJobOutcome::Completed(o) => opt_text(r.0) == Some(o.message@) && (if o.success {
                r.1 is Ok
            } else {
                r.1 matches Err(e) && only_says(e, o.message@)
            }),
            ClaimedJobOutcome::LeaseLost(_) => r.0 is None && (r.1 matches Err(e) && only_says(
                e,
                "排程 lease 已被其他 worker 接手"@,
            )),
        },
{
    match outcome {
        ClaimedJobOutcome::Completed(o) => {
            let said = o.message.clone();
            if o.success {
                (Some(said), Ok(()))
            } else {
                (Some(said), Err(to_wukong_error_string(o.message)))
            }
        },
        ClaimedJobOutcome::LeaseLost(_) => (
            None,
            Err(to_wukong_error_string("排程 lease 已被其他 worker 接手".to_owned())),
        ),
    }
}

// ---------------------------------------------------------------------------
// The memory
// ---------------------------------------------------------------------------

/// What is left to do about the memory.
#[derive(Debug, Clone, PartialEq, Eq)]
pub enum MemoryOutcome {
    /// Say this.
    Say(String),
    /// Fold the memories of a scope with the agent's help.
    Fold { scope: String },
    /// Write all memories below a directory.
    Export { dir: String },
}

/// The usual policy of forgetting.
pub open spec fn usual_pruning() -> PrunePolicy {
    PrunePolicy { max_age_secs: DEFAULT_MAX_AGE_SECS, importance_floor: Real { bits: DEFAULT_FLOOR_BITS } }
}

/// The text is that of a report on the memories as they are.
pub open spec fn reports(v: StoreView, scope: Option<Seq<char>>, now: i64, text: Seq<char>) -> bool {
    exists|s: Snapshot|
        is_snapshot(v.memories, scope, now, DEFAULT_MAX_AGE_SECS, Real { bits: DEFAULT_FLOOR_BITS }, s)
            && text == #[trigger] snapshot_text(s)
}

/// The memories of a scope that would be folded together, by their ids.
pub open spec fn planned(v: StoreView, scope: Seq<char>) -> Seq<Seq<i64>> {
    batches_in(v.memories, scope, DEFAULT_BATCH_SIZE).map_values(|b: Seq<ConsolidationRowView>| ids_of(b))
}

/// Carries out an operation on the memory, and says what is left to do.
pub fn run_memory_op(store: &mut Store, op: &MemoryOp, own_scope: &str, md_dir: Option<&str>, now: i64) -> (r: Result<
    MemoryOutcome,
    WukongError,
>)
    requires
        old(store)@.wf(),
        now - DEFAULT_MAX_AGE_SECS >= i64::MIN,
    ensures
        final(store)@.wf(),
        match *op {
            MemoryOp::Snapshot { scope } => final(store)@ == old(store)@ && (r matches Ok(o) && o matches MemoryOutcome::Say(t)
                && reports(old(store)@, opt_text(scope), now, t@)),
            MemoryOp::Consolidate { scope, dry_run } => final(store)@ == old(store)@ && ({
                let s = match scope {
                    Some(given) => given@,
                    None => own_scope@,
                };
                if dry_run {
                    r matches Ok(o) && o matches MemoryOutcome::Say(t) && t@ == plan_text(planned(old(store)@, s))
                } else {
                    r matches Ok(o) && o matches MemoryOutcome::Fold { scope: f } && f@ == s
                }
            }),
            MemoryOp::Prune { scope, dry_run } => {
                let ids = forgettable(old(store)@.memories, opt_text(scope), usual_pruning(), now);
                &&& r matches Ok(o) && o matches MemoryOutcome::Say(t) && t@ == pruning_text(
                    old(store)@.memories,
                    opt_text(scope),
                    usual_pruning(),
                    now,
                    dry_run,
                )
                &&& final(store)@ == (if dry_run {
                    old(store)@
                } else {
                    StoreView { memories: unmet_rows(old(store)@.memories, ConditionView::Ids(ids)), ..old(store)@ }
                })
            },
            MemoryOp::Export { dir } => final(store)@ == old(store)@ && (match either_text(opt_text(dir), opt_str_view(md_dir)) {
                Some(d) => r matches Ok(o) && o matches MemoryOutcome::Export { dir: e } && e@ == d,
                None => r matches Err(e) && only_says(e, "未指定輸出目錄,請用 --dir 或設 WUKONG_MD_DIR"@),
            }),
        },
{
    match op {
        MemoryOp::Snapshot { scope } => {
            let snap = store.snapshot(
                borrowed(scope),
                now,
                DEFAULT_MAX_AGE_SECS,
                Real { bits: DEFAULT_FLOOR_BITS },
            );
            Ok(MemoryOutcome::Say(memory_snapshot(&snap)))
        },
        MemoryOp::Consolidate { scope, dry_run } => {
            let s = match scope {
                Some(given) => given.clone(),
                None => own_scope.to_owned(),
            };
            if *dry_run {
                let policy = ConsolidatePolicy::default();
                let plan = store.plan_consolidation(s.as_str(), &policy);
                Ok(MemoryOutcome::Say(consolidation_plan_text(&plan)))
            } else {
                Ok(MemoryOutcome::Fold { scope: s })
            }
        },
        MemoryOp::Prune { scope, dry_run } => {
            let policy = PrunePolicy::default();
            assert(policy == usual_pruning());
            Ok(MemoryOutcome::Say(memory_prune(store, borrowed(scope), &policy, now, *dry_run)))
        },
        MemoryOp::Export { dir } => match dir {
            Some(d) => Ok(MemoryOutcome::Export { dir: d.clone() }),
            None => match md_dir {
                Some(d) => Ok(MemoryOutcome::Export { dir: d.to_owned() }),
                None => Err(
                    to_wukong_error_string(
                        "未指定輸出目錄,請用 --dir 或設 WUKONG_MD_DIR".to_owned(),
                    ),
                ),
            },
        },
    }
}

} // verus!
