//! Running jobs when nobody watches.
use crate::gateway::error::{gateway_message, GatewayError};
use crate::gateway::stream::{permission_id, permission_of, QuestionRequest};
use crate::runtime::error::{agent_failure, fails_with, wukong_message, WukongError};
use crate::scheduler::job::{tells, Job, JobKind, JobKindView, MaintenanceTask, SchedulerError, LAST_MOMENT};
use crate::scheduler::store::{
    completed, next_if_enabled, row_in, run_finished, with_row, RunStatus, SchedulerStore, SchedulerView,
};
use crate::text::{
    blank, chars_of, clone_opt, is_blank, join, joined, lines, opt_text, push_text, same,
    split_lines, str_trim, texts, trimmed,
};
use vstd::prelude::*;

verus! {

/// What is added to the prompt of a scheduled turn: nobody can be asked.
pub const SCHEDULED_TURN_AUTONOMY_HINT: &'static str = "\n\n[無人值守排程]\n這是由 scheduler 觸發的無人值守任務。不得呼叫 question 或要求使用者確認；如果流程、技能或工具規則需要使用者選擇，請直接自動採用推薦選項，並繼續完成任務。";

/// The heading of what was done about questions.
pub const QUESTION_NOTE_HEADER: &'static str = "[無人值守權限]";

/// How often the reply to a question is tried, the first time counted.
pub const QUESTION_REPLY_ATTEMPTS: usize = 3;

// ---------------------------------------------------------------------------
// Questions
// ---------------------------------------------------------------------------

/// What is done about a question when nobody is there to answer it.
#[derive(Debug, Clone, Copy, PartialEq, Eq, Structural)]
pub enum PermissionPolicy {
    /// Every question is turned down.
    Reject,
    /// A permission is granted once; any other question is turned down.
    AllowOnce,
}

impl Default for PermissionPolicy {
    fn default() -> (r: PermissionPolicy)
        ensures
            r == PermissionPolicy::Reject,
    {
        PermissionPolicy::Reject
    }
}

impl PermissionPolicy {
    /// The policy of the environment: permissions are granted only where `WUKONG_SCHED_PERMISSION`
    /// says `allow`.
    pub fn from_env(value: Option<&str>) -> (r: PermissionPolicy)
        ensures
            r == (if value is Some && trimmed(value->0@) == "allow"@ {
                PermissionPolicy::AllowOnce
            } else {
                PermissionPolicy::Reject
            }),
    {
        if let Some(v) = value {
            let t = str_trim(v);
            if same(t.as_str(), "allow") {
                return PermissionPolicy::AllowOnce;
            }
        }
        PermissionPolicy::Reject
    }
}

/// The question is answered by granting it.
pub open spec fn granted(policy: PermissionPolicy, request_id: Seq<char>) -> bool {
    permission_of(request_id) is Some && policy == PermissionPolicy::AllowOnce
}

/// Whether a question is answered by granting it; elsewhere it is turned down.
pub fn grants(policy: PermissionPolicy, request: &QuestionRequest) -> (r: bool)
    ensures
        r == granted(policy, request.request_id@),
{
    permission_id(request.request_id.as_str()).is_some() && policy == PermissionPolicy::AllowOnce
}

/// What is said of the answer.
pub open spec fn action_text(allow: bool) -> Seq<char> {
    if allow {
        "已自動允許"@
    } else {
        "已自動拒絕"@
    }
}

/// What was done about a question, in words.
pub fn question_action(allow: bool) -> (r: &'static str)
    ensures
        r@ == action_text(allow),
{
    if allow {
        "已自動允許"
    } else {
        "已自動拒絕"
    }
}

/// The lines that say anything, without the white space around them.
pub open spec fn full_lines(all: Seq<Seq<char>>) -> Seq<Seq<char>>
    decreases all.len(),
{
    if all.len() == 0 {
        Seq::empty()
    } else {
        let t = trimmed(all.last());
        if t.len() == 0 {
            full_lines(all.drop_last())
        } else {
            full_lines(all.drop_last()).push(t)
        }
    }
}

/// A text in one line.
pub open spec fn one_line(s: Seq<char>) -> Seq<char> {
    joined(full_lines(lines(s)), " / "@)
}

/// What a request asks, in one line.
pub open spec fn summary_of(first: Option<Seq<char>>) -> Seq<char> {
    match first {
        Some(q) => if one_line(q).len() > 0 {
            one_line(q)
        } else {
            "(無詢問內容)"@
        },
        None => "(無詢問內容)"@,
    }
}

/// The text of a request's first question.
pub open spec fn first_question(request: QuestionRequest) -> Option<Seq<char>> {
    if request.questions@.len() > 0 {
        Some(request.questions@[0].question@)
    } else {
        None
    }
}

/// What a request asks, in one line.
pub fn question_summary(request: &QuestionRequest) -> (r: String)
    ensures
        r@ == summary_of(first_question(*request)),
{
    if request.questions.len() > 0 {
        let q = request.questions[0].question.as_str();
        let v = chars_of(q);
        let all = split_lines(v.as_slice());
        let ghost rows = texts(all@);
        let mut full: Vec<String> = Vec::new();
        let mut i: usize = 0;
        assert(texts(full@) =~= full_lines(rows.take(0)));
        while i < all.len()
            invariant
                i <= all.len(),
                rows == texts(all@),
                texts(full@) == full_lines(rows.take(i as int)),
            decreases all.len() - i,
        {
            assert(rows.take(i + 1).drop_last() =~= rows.take(i as int));
            assert(rows[i as int] == all@[i as int]@);
            let t = str_trim(all[i].as_str());
            if !t.as_str().is_empty() {
                push_text(&mut full, t.as_str());
            }
            i = i + 1;
        }
        assert(rows.take(i as int) =~= rows);
        let s = join(&full, " / ");
        if !s.as_str().is_empty() {
            return s;
        }
    }
    "(無詢問內容)".to_owned()
}

/// What follows an attempt to answer a question.
#[derive(Debug, Clone, PartialEq, Eq)]
pub enum ReplyStep {
    /// The answer got through; this is to be noted.
    Delivered(String),
    Retry,
    /// The answer did not get through; this is to be noted, and the turn ends.
    GiveUp(String),
}

/// The note of an answer that got through.
pub open spec fn delivered_note(allow: bool, request_id: Seq<char>, summary: Seq<char>) -> Seq<char> {
    action_text(allow) + " "@ + request_id + "："@ + summary
}

/// The note of an answer that did not get through.
pub open spec fn failed_note(allow: bool, request_id: Seq<char>, detail: Seq<char>) -> Seq<char> {
    "處置失敗（"@ + action_text(allow) + "）"@ + request_id + "："@ + detail + "（已重試 3 次）"@
}

/// Decides what follows an attempt to answer a question: it is tried again until it gets through,
/// but only so often.
pub fn after_reply(policy: PermissionPolicy, request: &QuestionRequest, attempt: usize, failure: Option<&GatewayError>) -> (r:
    ReplyStep)
    ensures
        ({
            let allow = granted(policy, request.request_id@);
            match failure {
                None => r matches ReplyStep::Delivered(n) && n@ == delivered_note(
                    allow,
                    request.request_id@,
                    summary_of(first_question(*request)),
                ),
                Some(e) => if attempt < QUESTION_REPLY_ATTEMPTS {
                    r is Retry
                } else {
                    r matches ReplyStep::GiveUp(n) && n@ == failed_note(
                        allow,
                        request.request_id@,
                        gateway_message(*e),
                    )
                },
            }
        }),
{
    let allow = grants(policy, request);
    match failure {
        None => {
            let mut s = String::from_str(question_action(allow));
            s.append(" ");
            s.append(request.request_id.as_str());
            s.append("：");
            let summary = question_summary(request);
            s.append(summary.as_str());
            ReplyStep::Delivered(s)
        },
        Some(e) => {
            if attempt < QUESTION_REPLY_ATTEMPTS {
                return ReplyStep::Retry;
            }
            let mut s = String::from_str("處置失敗（");
            s.append(question_action(allow));
            s.append("）");
            s.append(request.request_id.as_str());
            s.append("：");
            let detail = e.message();
            s.append(detail.as_str());
            s.append("（已重試 3 次）");
            ReplyStep::GiveUp(s)
        },
    }
}

/// The error of a turn whose question could not be answered.
pub fn unanswered_error() -> (r: WukongError)
    ensures
        fails_with(r, "無法回覆 opencode 詢問，已中止本回合"@),
{
    agent_failure("無法回覆 opencode 詢問，已中止本回合".to_owned())
}

/// A text with what was done about questions below it.
pub open spec fn noted(text: Seq<char>, notes: Seq<Seq<char>>) -> Seq<char> {
    if notes.len() == 0 {
        text
    } else {
        text + (if blank(text) {
            Seq::empty()
        } else {
            "\n\n"@
        }) + QUESTION_NOTE_HEADER@ + "\n"@ + joined(notes, "\n"@)
    }
}

/// Puts what was done about questions below a text.
pub fn append_question_notes(text: String, notes: &Vec<String>) -> (r: String)
    ensures
        r@ == noted(text@, texts(notes@)),
{
    assert(texts(notes@).len() == notes@.len());
    if notes.len() == 0 {
        return text;
    }
    let ghost start = text@;
    let silent = is_blank(text.as_str());
    let mut s = text;
    if !silent {
        s.append("\n\n");
    } else {
        assert(s@ =~= start + Seq::<char>::empty());
    }
    s.append(QUESTION_NOTE_HEADER);
    s.append("\n");
    let t = join(notes, "\n");
    s.append(t.as_str());
    s
}

/// What a turn that nobody watched came to. What was done about questions is told in either case.
pub fn unattended_result(result: Result<String, WukongError>, notes: &Vec<String>) -> (r: Result<String, WukongError>)
    ensures
        match result {
            Ok(t) => r is Ok && r->Ok_0@ == noted(t@, texts(notes@)),
            Err(e) => if notes@.len() == 0 {
                r == result
            } else {
                r is Err && fails_with(
                    r->Err_0,
                    wukong_message(e) + "\n"@ + QUESTION_NOTE_HEADER@ + "\n"@ + joined(texts(notes@), "\n"@),
                )
            },
        },
{
    match result {
        Ok(t) => Ok(append_question_notes(t, notes)),
        Err(e) => {
            if notes.len() == 0 {
                return Err(e);
            }
            let mut s = e.message();
            s.append("\n");
            s.append(QUESTION_NOTE_HEADER);
            s.append("\n");
            let t = join(notes, "\n");
            s.append(t.as_str());
            Err(agent_failure(s))
        },
    }
}

// ---------------------------------------------------------------------------
// Jobs
// ---------------------------------------------------------------------------

/// What a job asks for.
#[derive(Debug, Clone, PartialEq, Eq)]
pub enum JobWork {
    Turn { scope: String, prompt: String },
    Snapshot { scope: Option<String> },
    Consolidate { scope: String },
    Prune { scope: Option<String> },
}

/// The mathematical form of what a job asks for.
pub enum JobWorkView {
    Turn { scope: Seq<char>, prompt: Seq<char> },
    Snapshot { scope: Option<Seq<char>> },
    Consolidate { scope: Seq<char> },
    Prune { scope: Option<Seq<char>> },
}

impl View for JobWork {
    type V = JobWorkView;

    open spec fn view(&self) -> JobWorkView {
        match self {
            JobWork::Turn { scope, prompt } => JobWorkView::Turn { scope: scope@, prompt: prompt@ },
            JobWork::Snapshot { scope } => JobWorkView::Snapshot { scope: opt_text(*scope) },
            JobWork::Consolidate { scope } => JobWorkView::Consolidate { scope: scope@ },
            JobWork::Prune { scope } => JobWorkView::Prune { scope: opt_text(*scope) },
        }
    }
}

/// What a job asks for. A turn runs in the job's own scope and is told that nobody can be asked;
/// folding without a scope goes to the configured one.
pub open spec fn work_of(k: JobKindView, base_scope: Seq<char>) -> JobWorkView {
    match k {
        JobKindView::Turn { scope, prompt } => JobWorkView::Turn {
            scope,
            prompt: prompt + SCHEDULED_TURN_AUTONOMY_HINT@,
        },
        JobKindView::Maintenance { scope, task } => match task {
            MaintenanceTask::Snapshot => JobWorkView::Snapshot { scope },
            MaintenanceTask::Consolidate => JobWorkView::Consolidate {
                scope: match scope {
                    Some(s) => s,
                    None => base_scope,
                },
            },
            MaintenanceTask::Prune => JobWorkView::Prune { scope },
        },
    }
}

/// Decides what a job asks for.
pub fn job_work(job: &Job, base_scope: &str) -> (r: JobWork)
    ensures
        r@ == work_of(job.kind@, base_scope@),
{
    match &job.kind {
        JobKind::Turn { scope, prompt } => {
            let mut p = prompt.clone();
            p.append(SCHEDULED_TURN_AUTONOMY_HINT);
            JobWork::Turn { scope: scope.clone(), prompt: p }
        },
        JobKind::Maintenance { scope, task } => match task {
            MaintenanceTask::Snapshot => JobWork::Snapshot { scope: clone_opt(scope) },
            MaintenanceTask::Consolidate => {
                let s = match scope {
                    Some(s) => s.clone(),
                    None => base_scope.to_owned(),
                };
                JobWork::Consolidate { scope: s }
            },
            MaintenanceTask::Prune => JobWork::Prune { scope: clone_opt(scope) },
        },
    }
}

/// What a job came to.
#[derive(Debug, Clone, PartialEq, Eq)]
pub struct ExecutionOutput {
    pub success: bool,
    pub message: String,
}

/// What a job came to: its text, or the text of its error.
pub fn execution_output(result: Result<String, WukongError>) -> (r: ExecutionOutput)
    ensures
        r.success == (result is Ok),
        r.message@ == (match result {
            Ok(t) => t@,
            Err(e) => wukong_message(e),
        }),
{
    match result {
        Ok(message) => ExecutionOutput { success: true, message },
        Err(e) => ExecutionOutput { success: false, message: e.message() },
    }
}

/// How a claimed job ended.
#[derive(Debug, Clone, PartialEq, Eq)]
pub enum ClaimedJobOutcome {
    /// The worker still had the job when it was done.
    Completed(ExecutionOutput),
    /// Another worker had taken the job. It was done all the same, but it is not this worker who
    /// plans the next run or tells of it.
    LeaseLost(ExecutionOutput),
}

/// The status that a run ends with.
pub open spec fn end_status(success: bool) -> RunStatus {
    if success {
        RunStatus::Success
    } else {
        RunStatus::Failure
    }
}

/// Ends a run of a claimed job: notes how it ended, and gives up the lock where the worker still
/// has it.
pub fn finish_claimed_job(
    store: &mut SchedulerStore,
    job: &Job,
    worker_id: &str,
    run_id: i64,
    output: ExecutionOutput,
    finished_at: i64,
) -> (r: Result<ClaimedJobOutcome, SchedulerError>)
    requires
        old(store)@.wf(),
        finished_at != LAST_MOMENT,
    ensures
        final(store)@.wf(),
        ({
            let noted = SchedulerView {
                runs: run_finished(
                    old(store)@.runs,
                    run_id,
                    end_status(output.success),
                    output.message@,
                    finished_at,
                ),
                ..old(store)@
            };
            let row = row_in(old(store)@.jobs, job@.id);
            match next_if_enabled(job@, finished_at) {
                Err(f) => r is Err && tells(r->Err_0, job@.cron, finished_at, f) && final(store)@ == noted,
                Ok(next) => if row is Some && row->0.locked_by == Some(worker_id@) {
                    r == Ok::<ClaimedJobOutcome, SchedulerError>(ClaimedJobOutcome::Completed(output))
                        && final(store)@ == (SchedulerView {
                        jobs: with_row(old(store)@.jobs, completed(row->0, next, finished_at)),
                        ..noted
                    })
                } else {
                    r == Ok::<ClaimedJobOutcome, SchedulerError>(ClaimedJobOutcome::LeaseLost(output))
                        && final(store)@ == noted
                },
            }
        }),
{
    let status = if output.success {
        RunStatus::Success
    } else {
        RunStatus::Failure
    };
    store.finish_run(run_id, status, output.message.as_str(), finished_at);
    match store.complete_claimed_job(job, worker_id, finished_at) {
        Err(e) => Err(e),
        Ok(mine) => if mine {
            Ok(ClaimedJobOutcome::Completed(output))
        } else {
            Ok(ClaimedJobOutcome::LeaseLost(output))
        },
    }
}

} // verus!
