//! What a line typed at the prompt does, and what the commands tell.
use crate::cli::command::{command_of, CommandView};
use crate::cli::operations::{
    asked_job, created_line, fault_told, in_one_line, job_line, kind_told, moment_told, planned, run_line, says,
    schedule_done, task_of, usual_pruning,
};
use crate::cli::operations::ScheduleOutcome;
use crate::cli::persona::{persona_text, skill_document};
use crate::cli::render::{answer_in, doing_in, questions_shown, set_in};
use crate::cli::repl::{action_of, slash_action, word_end, ActionView};
use crate::gateway::cli::{ScheduleMaintenanceTaskArg, ScheduleOp};
use crate::gateway::prompt::{composed, memory_lines};
use crate::gateway::stream::{EventView, QuestionView};
use crate::memory::candidates::ScoredView;
use crate::memory::consolidate::{batches_cover_everything, batches_in, ids_of, pieces};
use crate::memory::fold_laws::batches_are_full;
use crate::memory::queries::{fold_of, foldable_rows, selected, RowOrder};
use crate::memory::store::{MemoryRowView, StoreView};
use crate::orchestrator::role::{card_of, Role};
use crate::order::Real;
use crate::runtime::error::WukongError;
use crate::runtime::persona::WUKONG_PERSONA;
use crate::runtime::skill_assets::SkillSpec;
use crate::scheduler::job::{
    next_run, scheduler_message, tells, Fault, JobKindView, JobView, MaintenanceTask, SchedulerError,
};
use crate::scheduler::laws::other_jobs_stay;
use crate::scheduler::store::{
    job_ids_differ, job_slot, locked, removed_jobs_are_gone, row_in, rows_are_kept_by_job, switched, JobRowView, RunView,
    SchedulerView,
};
use crate::text::{
    blank, decimal, has, inner_parts_are_found, lines, longer_texts_hold_as_much, parts_are_found, signed_decimal, stripped,
    trim_start, trimmed, white,
};
use vstd::prelude::*;

verus! {

// ---------------------------------------------------------------------------
// The prompt
// ---------------------------------------------------------------------------

/// A line that does not start with a slash is asked, trimmed; a blank one does nothing.
pub proof fn plain_lines_are_asked(line: Seq<char>)
    ensures
        blank(line) ==> action_of(line) is Skip,
        !blank(line) && trimmed(line)[0] != '/' ==> action_of(line) == ActionView::Turn(trimmed(line)),
{
    reveal_strlit("/exit");
    reveal_strlit("/quit");
    reveal_strlit("/scope");
    reveal_strlit("/scope ");
    reveal_strlit("/");
    let t = trimmed(line);
    if !blank(line) && t[0] != '/' {
        assert("/exit"@[0] == '/' && "/quit"@[0] == '/' && "/scope"@[0] == '/');
        if stripped(t, "/scope "@) is Some {
            assert(t.subrange(0, 7)[0] == t[0]);
            assert("/scope "@[0] == '/');
        }
        if stripped(t, "/"@) is Some {
            assert(t.subrange(0, 1)[0] == t[0]);
            assert("/"@[0] == '/');
        }
    }
}

/// The two words that leave the prompt.
pub proof fn leaving_words_leave(line: Seq<char>)
    ensures
        trimmed(line) == "/exit"@ || trimmed(line) == "/quit"@ ==> action_of(line) is Exit,
        trimmed(line) == "/scope"@ ==> action_of(line) is Skip,
{
    reveal_strlit("/exit");
    reveal_strlit("/quit");
    reveal_strlit("/scope");
    assert("/exit"@.len() == 5);
    assert("/quit"@.len() == 5);
    assert("/scope"@.len() == 6);
}

/// The scope is set to what stands behind the word, trimmed.
pub proof fn scopes_are_set(line: Seq<char>, scope: Seq<char>)
    requires
        trimmed(line) == "/scope "@ + scope,
    ensures
        !blank(scope) ==> action_of(line) == ActionView::SetScope(trimmed(scope)),
        blank(scope) ==> action_of(line) is Skip,
{
    reveal_strlit("/exit");
    reveal_strlit("/quit");
    reveal_strlit("/scope");
    reveal_strlit("/scope ");
    let t = "/scope "@ + scope;
    assert("/scope "@.len() == 7);
    assert("/exit"@.len() == 5);
    assert("/quit"@.len() == 5);
    assert("/scope"@.len() == 6);
    assert(t.subrange(0, 7) =~= "/scope "@);
    assert(t.skip(7) =~= scope);
}

/// The commands by their names, and nothing else is one.
pub proof fn commands_by_name(name: Seq<char>, args: Seq<char>)
    ensures
        command_of("new"@, args) == Some(CommandView::New),
        command_of("compact"@, args) == Some(CommandView::Compact),
        command_of("providers"@, args) == Some(CommandView::Providers),
        command_of("models"@, args) == Some(CommandView::Models),
        command_of("set_models"@, args) == Some(CommandView::SetModels(trimmed(args))),
        name != "new"@ && name != "compact"@ && name != "providers"@ && name != "models"@ && name != "set_models"@
            ==> command_of(name, args) is None,
{
    reveal_strlit("new");
    reveal_strlit("compact");
    reveal_strlit("providers");
    reveal_strlit("models");
    reveal_strlit("set_models");
    assert("new"@.len() == 3);
    assert("compact"@.len() == 7);
    assert("providers"@.len() == 9);
    assert("models"@.len() == 6);
    assert("set_models"@.len() == 10);
}

proof fn first_word(name: Seq<char>, rest: Seq<char>)
    requires
        forall|i: int| 0 <= i < name.len() ==> !white(#[trigger] name[i]),
        rest.len() > 0 ==> white(rest[0]),
    ensures
        word_end(name + rest) == name.len(),
    decreases name.len(),
{
    let s = name + rest;
    if name.len() > 0 {
        let d = name.drop_first();
        assert(s[0] == name[0]);
        assert forall|i: int| 0 <= i < d.len() implies !white(#[trigger] d[i]) by {
            assert(d[i] == name[i + 1]);
        }
        first_word(d, rest);
        assert(s.drop_first() =~= d + rest);
    } else {
        assert(s =~= rest);
    }
}

/// A slash and a word is the command of that name, with what stands behind it; an unknown one does
/// nothing.
pub proof fn slashed_words_are_commands(name: Seq<char>, rest: Seq<char>)
    requires
        name.len() > 0,
        forall|i: int| 0 <= i < name.len() ==> !white(#[trigger] name[i]),
        rest.len() > 0 ==> white(rest[0]),
    ensures
        command_of(name, rest) is Some ==> slash_action(name + rest) == ActionView::Command(command_of(name, rest)->0),
        command_of(name, rest) is None ==> slash_action(name + rest) is Skip,
{
    let s = name + rest;
    assert(s[0] == name[0]);
    assert(trim_start(s) == s);
    first_word(name, rest);
    assert(s.take(name.len() as int) =~= name);
    assert(s.skip(name.len() as int) =~= rest);
}

// ---------------------------------------------------------------------------
// Schedules
// ---------------------------------------------------------------------------

/// The line of a job tells all there is to know of it: its id, whether it is on, its expression, its next
/// run, its name and what it does.
pub proof fn job_lines_tell_everything(j: JobView)
    ensures
        job_line(j).take(j.id.len() as int) == j.id,
        j.enabled ==> has(job_line(j), "\tenabled="@ + "true"@),
        !j.enabled ==> has(job_line(j), "\tenabled="@ + "false"@),
        has(job_line(j), "\tcron="@ + j.cron),
        has(job_line(j), "\tnext="@ + moment_told(j.next_run_at)),
        has(job_line(j), "\tname="@ + j.name),
        has(job_line(j), "\tkind="@ + kind_told(j.kind)),
{
    let e = if j.enabled {
        "true"@
    } else {
        "false"@
    };
    let full = job_line(j);
    let (c, n, m, k) = (j.cron, moment_told(j.next_run_at), j.name, kind_told(j.kind));
    let (te, tc, tn, tm, tk) = ("\tenabled="@, "\tcron="@, "\tnext="@, "\tname="@, "\tkind="@);
    assert(full.take(j.id.len() as int) =~= j.id);
    parts_are_found(j.id, te + e, tc + c + tn + n + tm + m + tk + k);
    assert(j.id + (te + e) + (tc + c + tn + n + tm + m + tk + k) =~= full);
    parts_are_found(j.id + te + e, tc + c, tn + n + tm + m + tk + k);
    assert(j.id + te + e + (tc + c) + (tn + n + tm + m + tk + k) =~= full);
    parts_are_found(j.id + te + e + tc + c, tn + n, tm + m + tk + k);
    assert(j.id + te + e + tc + c + (tn + n) + (tm + m + tk + k) =~= full);
    parts_are_found(j.id + te + e + tc + c + tn + n, tm + m, tk + k);
    assert(j.id + te + e + tc + c + tn + n + (tm + m) + (tk + k) =~= full);
    parts_are_found(j.id + te + e + tc + c + tn + n + tm + m, tk + k, Seq::empty());
    assert(j.id + te + e + tc + c + tn + n + tm + m + (tk + k) + Seq::<char>::empty() =~= full);
}

/// A moment is told by its number, and a dash stands for none.
pub proof fn moments_are_told(t: i64)
    ensures
        moment_told(Some(t)) == signed_decimal(t as int),
        moment_told(None) == "-"@,
{
}

/// What a job does is told with its scope.
pub proof fn kinds_are_told(scope: Seq<char>, prompt: Seq<char>)
    ensures
        kind_told(JobKindView::Turn { scope, prompt }) == "turn(scope="@ + scope + ")"@,
        kind_told(JobKindView::Maintenance { scope: Some(scope), task: MaintenanceTask::Snapshot }) == "maintenance(task="@
            + "Snapshot"@ + ",scope="@ + scope + ")"@,
        kind_told(JobKindView::Maintenance { scope: Some(scope), task: MaintenanceTask::Consolidate }) == "maintenance(task="@
            + "Consolidate"@ + ",scope="@ + scope + ")"@,
        kind_told(JobKindView::Maintenance { scope: Some(scope), task: MaintenanceTask::Prune }) == "maintenance(task="@
            + "Prune"@ + ",scope="@ + scope + ")"@,
        kind_told(JobKindView::Maintenance { scope: None, task: MaintenanceTask::Prune }) == "maintenance(task="@ + "Prune"@
            + ",scope="@ + "<all>"@ + ")"@,
{
}

/// The line of a run ends with what the run said, on one line.
pub proof fn run_lines_tell_what_was_said(r: RunView)
    ensures
        run_line(r).skip(run_line(r).len() - r.message.len()) == in_one_line(r.message),
        run_line(r).take(signed_decimal(r.id as int).len() as int) == signed_decimal(r.id as int),
        has(run_line(r), "\tjob="@ + r.job_id),
        has(run_line(r), "\tfinished="@ + moment_told(r.finished_at)),
{
    let full = run_line(r);
    let m = in_one_line(r.message);
    let id = signed_decimal(r.id as int);
    let w = crate::scheduler::store::status_word(r.status);
    let s = signed_decimal(r.started_at as int);
    let f = moment_told(r.finished_at);
    assert(full.skip(full.len() - m.len()) =~= m);
    assert(full.take(id.len() as int) =~= id);
    let tail = "\tstatus="@ + w + "\tstarted="@ + s + "\tfinished="@ + f + "\t"@ + m;
    parts_are_found(id, "\tjob="@ + r.job_id, tail);
    assert(id + ("\tjob="@ + r.job_id) + tail =~= full);
    let head = id + "\tjob="@ + r.job_id + "\tstatus="@ + w + "\tstarted="@ + s;
    parts_are_found(head, "\tfinished="@ + f, "\t"@ + m);
    assert(head + ("\tfinished="@ + f) + ("\t"@ + m) =~= full);
}

/// A text on one line holds no line ends, and is otherwise the same, character by character.
pub proof fn one_line_is_one_line(s: Seq<char>, i: int)
    requires
        0 <= i < s.len(),
    ensures
        in_one_line(s).len() == s.len(),
        in_one_line(s)[i] != '\n',
        s[i] != '\n' ==> in_one_line(s)[i] == s[i],
        s[i] == '\n' ==> in_one_line(s)[i] == ' ',
{
}

/// A job that is asked for is made as it was asked for.
pub proof fn jobs_are_made_as_asked(op: ScheduleOp)
    ensures
        op matches ScheduleOp::AddTurn { name, cron, scope, prompt } ==> asked_job(op) is Some && asked_job(op)->0.name == name
            && asked_job(op)->0.cron == cron && asked_job(op)->0.kind@ == (JobKindView::Turn { scope: scope@, prompt: prompt@ }),
        op matches ScheduleOp::AddMaintenance { name, cron, scope, task } ==> asked_job(op) is Some && asked_job(op)->0.name
            == name && asked_job(op)->0.cron == cron && asked_job(op)->0.kind@ is Maintenance && asked_job(
            op,
        )->0.kind@->task == task_of(task),
        task_of(ScheduleMaintenanceTaskArg::Snapshot) == MaintenanceTask::Snapshot,
        task_of(ScheduleMaintenanceTaskArg::Consolidate) == MaintenanceTask::Consolidate,
        task_of(ScheduleMaintenanceTaskArg::Prune) == MaintenanceTask::Prune,
{
}

/// A job that is on and that nobody holds is run when it is triggered; otherwise nothing changes, and no
/// run is noted yet.
pub proof fn triggered_jobs_run(
    before: SchedulerView,
    after: SchedulerView,
    id: String,
    now: i64,
    process: u32,
    r: Result<ScheduleOutcome, WukongError>,
)
    requires
        schedule_done(before, after, ScheduleOp::Trigger { id }, now, process, r),
        r is Ok,
    ensures
        ({
            let row = row_in(before.jobs, id@);
            let free = row is Some && row->0.job.enabled && (row->0.locked_until is None || row->0.locked_until->0 <= now);
            &&& r->Ok_0 is Run <==> free
            &&& r->Ok_0 is Run ==> r->Ok_0->job@ == row->0.job
            &&& !free ==> after == before
            &&& after.runs == before.runs
        }),
{
}

/// Listing changes nothing and tells a line for each job; removing changes nothing where there is no such
/// job.
pub proof fn listing_changes_nothing(
    before: SchedulerView,
    after: SchedulerView,
    id: String,
    now: i64,
    process: u32,
    r: Result<ScheduleOutcome, WukongError>,
)
    ensures
        schedule_done(before, after, ScheduleOp::List, now, process, r) ==> after == before,
        schedule_done(before, after, ScheduleOp::Rm { id }, now, process, r) && row_in(before.jobs, id@) is None ==> after
            == before,
        schedule_done(before, after, ScheduleOp::Enable { id }, now, process, r) && row_in(before.jobs, id@) is None ==> after
            == before,
        schedule_done(before, after, ScheduleOp::Disable { id }, now, process, r) && row_in(before.jobs, id@) is None ==> after
            == before,
{
}

/// Removing a job says so and removes the job with its runs, and nothing else.
pub proof fn removing_removes_the_job_and_its_runs(
    before: SchedulerView,
    after: SchedulerView,
    id: String,
    now: i64,
    process: u32,
    r: Result<ScheduleOutcome, WukongError>,
)
    requires
        job_ids_differ(before.jobs),
        row_in(before.jobs, id@) is Some,
        schedule_done(before, after, ScheduleOp::Rm { id }, now, process, r),
    ensures
        says(r, seq!["已刪除排程"@]),
        row_in(after.jobs, id@) is None,
        after.jobs == before.jobs.filter(|j: JobRowView| j.job.id != id@),
        after.runs == before.runs.filter(|x: RunView| x.job_id != id@),
        after.next_run_id == before.next_run_id,
{
    removed_jobs_are_gone(before.jobs, before.runs, id@);
    other_jobs_stay(before.jobs, before.runs, id@);
}

/// A job that is switched on waits for its next run, one that is switched off for none; the other jobs and
/// the runs stay, and what is told says which way the switch went.
pub proof fn switches_are_set_as_asked(
    before: SchedulerView,
    on: SchedulerView,
    off: SchedulerView,
    id: String,
    other: Seq<char>,
    now: i64,
    process: u32,
    r: Result<ScheduleOutcome, WukongError>,
    q: Result<ScheduleOutcome, WukongError>,
)
    requires
        row_in(before.jobs, id@) is Some,
        schedule_done(before, on, ScheduleOp::Enable { id }, now, process, r),
        schedule_done(before, off, ScheduleOp::Disable { id }, now, process, q),
        other != id@,
    ensures
        r is Ok <==> next_run(row_in(before.jobs, id@)->0.job.cron, now) is Ok,
        r is Err ==> on == before,
        r is Ok ==> says(r, seq!["已啟用排程"@]) && row_in(on.jobs, id@) is Some && row_in(on.jobs, id@)->0.job.enabled && Ok::<
            Option<i64>,
            Fault,
        >(row_in(on.jobs, id@)->0.job.next_run_at) == next_run(row_in(before.jobs, id@)->0.job.cron, now),
        says(q, seq!["已停用排程"@]),
        row_in(off.jobs, id@) is Some && !row_in(off.jobs, id@)->0.job.enabled && row_in(
            off.jobs,
            id@,
        )->0.job.next_run_at is None,
        row_in(on.jobs, other) == row_in(before.jobs, other),
        row_in(off.jobs, other) == row_in(before.jobs, other),
        on.runs == before.runs && off.runs == before.runs,
{
    let row = row_in(before.jobs, id@)->0;
    found_under_its_id(before.jobs, id@);
    rows_are_kept_by_job(before.jobs, switched(row, false, None, now), other);
    if next_run(row.job.cron, now) is Ok {
        rows_are_kept_by_job(before.jobs, switched(row, true, next_run(row.job.cron, now)->Ok_0, now), other);
    }
}

proof fn found_under_its_id(rows: Seq<JobRowView>, id: Seq<char>)
    requires
        row_in(rows, id) is Some,
    ensures
        row_in(rows, id)->0.job.id == id,
    decreases rows.len(),
{
    if rows.len() > 0 && rows[0].job.id != id {
        let d = rows.drop_first();
        let i = job_slot(d, id);
        slot_is_inside(d, id);
        assert(rows[i + 1] == d[i]);
        found_under_its_id(d, id);
    }
}

proof fn slot_is_inside(rows: Seq<JobRowView>, id: Seq<char>)
    ensures
        0 <= job_slot(rows, id) <= rows.len(),
    decreases rows.len(),
{
    if rows.len() > 0 {
        slot_is_inside(rows.drop_first(), id);
    }
}

/// A job that is run by hand is held for five minutes by the process that runs it.
pub proof fn triggered_jobs_are_held(
    before: SchedulerView,
    after: SchedulerView,
    id: String,
    now: i64,
    process: u32,
    r: Result<ScheduleOutcome, WukongError>,
)
    requires
        schedule_done(before, after, ScheduleOp::Trigger { id }, now, process, r),
        r is Ok && r->Ok_0 is Run,
        now <= i64::MAX - 300,
    ensures
        row_in(after.jobs, id@) is Some,
        row_in(after.jobs, id@)->0.locked_until == Some((now + 300) as i64),
        row_in(after.jobs, id@)->0.locked_by == Some("manual-"@ + decimal(process as nat)),
        r->Ok_0->worker_id@ == "manual-"@ + decimal(process as nat),
{
    let row = row_in(before.jobs, id@)->0;
    found_under_its_id(before.jobs, id@);
    rows_are_kept_by_job(before.jobs, locked(row, "manual-"@ + decimal(process as nat), now, 300), id@);
}

/// What is told of a wrong expression at the prompt is what the scheduler says of it.
pub proof fn faults_are_told_alike(e: SchedulerError, f: Fault, expr: Seq<char>, after: i64)
    requires
        tells(e, expr, after, f),
    ensures
        fault_told(f, expr, after) == scheduler_message(e),
{
}

/// What is planned is what would be folded: every memory of the scope that can be folded, twenty at a
/// time.
pub proof fn plans_hold_twenty_at_a_time(v: StoreView, scope: Seq<char>, k: int)
    requires
        0 <= k < planned(v, scope).len(),
    ensures
        0 < planned(v, scope)[k].len() <= 20,
        k + 1 < planned(v, scope).len() ==> planned(v, scope)[k].len() == 20,
        planned(v, scope)[k] == ids_of(batches_in(v.memories, scope, 20)[k]),
{
    let found = selected(v.memories, foldable_rows(Some(scope)), RowOrder::Oldest, -1).map_values(
        |r: MemoryRowView| fold_of(r),
    );
    batches_are_full(found, 20);
    batches_cover_everything(found, 20);
    assert(batches_in(v.memories, scope, 20) == pieces(found, 20));
}

/// What is pruned without saying more is what is older than thirty days and weighs less than a half.
pub proof fn the_usual_pruning_spares_a_month()
    ensures
        usual_pruning().max_age_secs == 30 * 86_400,
        usual_pruning().importance_floor == (Real { bits: 0x3FE0_0000_0000_0000 }),
{
}

/// A new job's line tells its id and its next run.
pub proof fn new_jobs_are_told(id: Seq<char>, next: Option<i64>)
    ensures
        has(created_line(id, next), id),
        has(created_line(id, next), " next="@ + moment_told(next)),
{
    let h = "已建立排程: "@;
    let t = " next="@ + moment_told(next);
    parts_are_found(h, id, t);
    assert(h + id + t =~= created_line(id, next));
    parts_are_found(h + id, t, Seq::empty());
    assert(h + id + t + Seq::<char>::empty() =~= created_line(id, next));
}

// ---------------------------------------------------------------------------
// What is shown
// ---------------------------------------------------------------------------

/// The answer is what the agent said, and nothing else is; tools and thoughts are shown on the side.
pub proof fn answers_and_doings_are_apart(e: EventView, t: Seq<char>)
    ensures
        answer_in(EventView::Text(t)) == t,
        !(e is Text) ==> answer_in(e).len() == 0,
        doing_in(EventView::Text(t)).len() == 0,
        doing_in(EventView::ToolUse(t)) == "  ▸ 使用工具 "@ + t + "\n"@,
        !blank(t) ==> doing_in(EventView::Reasoning(t)) == "  💭 "@ + t + "\n"@,
        blank(t) ==> doing_in(EventView::Reasoning(t)).len() == 0,
        doing_in(EventView::StepStart).len() == 0 && doing_in(EventView::StepFinish).len() == 0,
{
}

/// Every question is shown, with its header and all its lines.
pub proof fn every_question_is_shown(q: Seq<QuestionView>, next: QuestionView, list: Seq<Seq<char>>, line: Seq<char>)
    ensures
        questions_shown(q.push(next)) == questions_shown(q) + "  "@ + next.header + "\n"@ + set_in(
            lines(trimmed(next.question)),
        ),
        set_in(list.push(line)) == set_in(list) + "     "@ + line + "\n"@,
        questions_shown(Seq::<QuestionView>::empty()).len() == 0,
        set_in(Seq::<Seq<char>>::empty()).len() == 0,
{
    assert(q.push(next).drop_last() =~= q);
    assert(list.push(line).drop_last() =~= list);
}

proof fn remembered_lines(hits: Seq<ScoredView>, k: int)
    requires
        0 <= k < hits.len(),
    ensures
        has(memory_lines(hits), "- ("@ + hits[k].scope + ") "@ + hits[k].text + "\n"@),
    decreases hits.len(),
{
    let d = hits.drop_last();
    let line = "- ("@ + hits.last().scope + ") "@ + hits.last().text + "\n"@;
    assert(memory_lines(hits) =~= memory_lines(d) + line + Seq::<char>::empty());
    if k < d.len() {
        remembered_lines(d, k);
        longer_texts_hold_as_much(Seq::empty(), memory_lines(d), line, "- ("@ + d[k].scope + ") "@ + d[k].text + "\n"@);
        assert(Seq::<char>::empty() + memory_lines(d) + line =~= memory_lines(hits));
    } else {
        parts_are_found(memory_lines(d), line, Seq::empty());
    }
}

/// The agent is asked with the persona first, its role's card, the document of the skill it follows, what
/// is remembered, and the user's words last.
pub proof fn the_agent_is_told_everything(role: Role, skill: SkillSpec, hits: Seq<ScoredView>, input: Seq<char>, k: int)
    requires
        0 <= k < hits.len(),
    ensures
        ({
            let p = persona_text(role, Some(&skill), hits, input);
            &&& p.take(WUKONG_PERSONA@.len() as int) == WUKONG_PERSONA@
            &&& has(p, card_of(role))
            &&& has(p, skill.content@)
            &&& has(p, skill.name@)
            &&& has(p, hits[k].text)
            &&& p.skip(p.len() - input.len()) == input
        }),
        persona_text(role, None, Seq::empty(), input) == WUKONG_PERSONA@ + "\n\n"@ + card_of(role) + "\n\n"@ + input,
{
    let p = persona_text(role, Some(&skill), hits, input);
    let (w, g, c, d, m) = (WUKONG_PERSONA@, "\n\n"@, card_of(role), skill_document(skill), composed(hits, input));
    assert(p.take(w.len() as int) =~= w);
    parts_are_found(w + g, c, d + g + m);
    assert(w + g + c + (d + g + m) =~= p);
    parts_are_found(w + g + c, d, g + m);
    assert(w + g + c + d + (g + m) =~= p);
    let h = "\n\n[技能規範]\n你必須遵循 `"@;
    let mid = "` 的流程。以下是技能文件：\n"@;
    parts_are_found(h, skill.name@, mid + skill.content@);
    assert(h + skill.name@ + (mid + skill.content@) =~= d);
    parts_are_found(h + skill.name@ + mid, skill.content@, Seq::empty());
    assert(h + skill.name@ + mid + skill.content@ + Seq::<char>::empty() =~= d);
    inner_parts_are_found(p, d, skill.name@);
    inner_parts_are_found(p, d, skill.content@);
    let line = "- ("@ + hits[k].scope + ") "@ + hits[k].text + "\n"@;
    remembered_lines(hits, k);
    parts_are_found("- ("@ + hits[k].scope + ") "@, hits[k].text, "\n"@);
    inner_parts_are_found(memory_lines(hits), line, hits[k].text);
    let before = w + g + c + d + g + "[相關記憶]\n"@;
    let behind = "\n[使用者輸入]\n"@ + input;
    longer_texts_hold_as_much(before, memory_lines(hits), behind, hits[k].text);
    assert(before + memory_lines(hits) + behind =~= p);
    assert(p.skip(p.len() - input.len()) =~= input);
    assert(persona_text(role, None, Seq::empty(), input) =~= w + g + c + g + input);
}

} // verus!
