//! What a scheduled job does, what it may do on its own, and what is told of it.
use crate::memoryd::{bearer_of, port_of};
use crate::scheduler::executor::{
    action_text, delivered_note, end_status, failed_note, full_lines, granted, noted, one_line, summary_of, work_of,
    ExecutionOutput, JobWorkView, PermissionPolicy, QUESTION_NOTE_HEADER, SCHEDULED_TURN_AUTONOMY_HINT,
};
use crate::scheduler::job::{
    expression_fault, label_of, next_run, scheduler_message, tells, with_seconds, Fault, Job, JobKindView,
    MaintenanceTask, SchedulerError, FIRST_MOMENT, LAST_MOMENT,
};
use crate::scheduler::store::RunStatus;
use crate::schedulerd::auto_maintenance::interval_of;
use crate::schedulerd::notify::{chat_of_job, first_solid, is_notice, notice_messages, told, Notice};
use crate::text::{
    blank, has, joined, lines, parsed_signed, parsed_unsigned, parts_are_found, signed_decimal, stripped, texts, trimmed, words,
};
use vstd::prelude::*;

verus! {

// ---------------------------------------------------------------------------
// Work
// ---------------------------------------------------------------------------

/// A scheduled turn is asked in its own scope with its own prompt, and told behind it that nobody is
/// there to answer; a scheduled task is done in its own scope, and folding memories without a scope in the
/// usual one.
pub proof fn jobs_do_what_they_say(scope: Seq<char>, prompt: Seq<char>, own: Option<Seq<char>>, base: Seq<char>)
    ensures
        ({
            let w = work_of(JobKindView::Turn { scope, prompt }, base);
            &&& w is Turn && w->Turn_scope == scope
            &&& w->prompt.take(prompt.len() as int) == prompt
            &&& w->prompt.skip(prompt.len() as int) == SCHEDULED_TURN_AUTONOMY_HINT@
        }),
        work_of(JobKindView::Maintenance { scope: own, task: MaintenanceTask::Snapshot }, base) == (JobWorkView::Snapshot {
            scope: own,
        }),
        work_of(JobKindView::Maintenance { scope: own, task: MaintenanceTask::Prune }, base) == (JobWorkView::Prune {
            scope: own,
        }),
        work_of(JobKindView::Maintenance { scope: Some(scope), task: MaintenanceTask::Consolidate }, base) == (
        JobWorkView::Consolidate { scope }),
        work_of(JobKindView::Maintenance { scope: None, task: MaintenanceTask::Consolidate }, base) == (
        JobWorkView::Consolidate { scope: base }),
{
    let p = prompt + SCHEDULED_TURN_AUTONOMY_HINT@;
    assert(p.take(prompt.len() as int) =~= prompt);
    assert(p.skip(prompt.len() as int) =~= SCHEDULED_TURN_AUTONOMY_HINT@);
}

/// Only a request for a permission is ever granted, and only where the policy says so.
pub proof fn only_permissions_are_granted(id: Seq<char>, other: Seq<char>)
    ensures
        granted(PermissionPolicy::AllowOnce, "permission-"@ + id),
        !granted(PermissionPolicy::Reject, other),
        stripped(other, "permission-"@) is None ==> !granted(PermissionPolicy::AllowOnce, other),
{
    reveal_strlit("permission-");
    let r = "permission-"@ + id;
    assert(r.subrange(0, "permission-"@.len() as int) =~= "permission-"@);
}

/// A run ends as it went.
pub proof fn runs_end_as_they_went()
    ensures
        end_status(true) == RunStatus::Success,
        end_status(false) == RunStatus::Failure,
{
}

/// The answer of an unattended turn is kept, and what was decided for the user is told behind it, all of
/// it; where nothing was decided nothing is added.
pub proof fn decisions_are_told_behind_the_answer(text: Seq<char>, notes: Seq<Seq<char>>)
    ensures
        noted(text, Seq::empty()) == text,
        notes.len() > 0 ==> noted(text, notes).take(text.len() as int) == text,
        notes.len() > 0 ==> has(noted(text, notes), joined(notes, "\n"@)),
        notes.len() > 0 ==> has(noted(text, notes), QUESTION_NOTE_HEADER@),
{
    if notes.len() > 0 {
        let gap = if blank(text) {
            Seq::empty()
        } else {
            "\n\n"@
        };
        let full = noted(text, notes);
        let (h, j) = (QUESTION_NOTE_HEADER@, joined(notes, "\n"@));
        assert(full.take(text.len() as int) =~= text);
        parts_are_found(text + gap, h, "\n"@ + j);
        assert(text + gap + h + ("\n"@ + j) =~= full);
        parts_are_found(text + gap + h + "\n"@, j, Seq::empty());
        assert(text + gap + h + "\n"@ + j + Seq::<char>::empty() =~= full);
    }
}

/// A note says what was decided, of which request, and about what.
pub proof fn notes_say_what_was_decided(allow: bool, id: Seq<char>, what: Seq<char>)
    ensures
        has(delivered_note(allow, id, what), id),
        has(delivered_note(allow, id, what), what),
        has(failed_note(allow, id, what), id),
        has(failed_note(allow, id, what), what),
        delivered_note(true, id, what).take("已自動允許"@.len() as int) == "已自動允許"@,
        delivered_note(false, id, what).take("已自動拒絕"@.len() as int) == "已自動拒絕"@,
{
    let a = action_text(allow);
    parts_are_found(a + " "@, id, "："@ + what);
    assert(a + " "@ + id + ("："@ + what) =~= delivered_note(allow, id, what));
    parts_are_found(a + " "@ + id + "："@, what, Seq::empty());
    assert(a + " "@ + id + "："@ + what + Seq::<char>::empty() =~= delivered_note(allow, id, what));
    let t = "（已重試 3 次）"@;
    parts_are_found("處置失敗（"@ + a + "）"@, id, "："@ + what + t);
    assert("處置失敗（"@ + a + "）"@ + id + ("："@ + what + t) =~= failed_note(allow, id, what));
    parts_are_found("處置失敗（"@ + a + "）"@ + id + "："@, what, t);
    assert("處置失敗（"@ + a + "）"@ + id + "："@ + what + t =~= failed_note(allow, id, what));
    assert(delivered_note(true, id, what).take("已自動允許"@.len() as int) =~= "已自動允許"@);
    assert(delivered_note(false, id, what).take("已自動拒絕"@.len() as int) =~= "已自動拒絕"@);
}

/// A question is told on one line: its lines that are not blank, trimmed and in order.
pub proof fn questions_are_told_on_one_line(all: Seq<Seq<char>>, next: Seq<char>)
    ensures
        full_lines(Seq::<Seq<char>>::empty()).len() == 0,
        blank(next) ==> full_lines(all.push(next)) == full_lines(all),
        !blank(next) ==> full_lines(all.push(next)) == full_lines(all).push(trimmed(next)),
{
    assert(all.push(next).drop_last() =~= all);
}

/// A question without text is told as such.
pub proof fn empty_questions_are_told_as_such(q: Seq<char>)
    ensures
        summary_of(None) == "(無詢問內容)"@,
        one_line(q).len() == 0 ==> summary_of(Some(q)) == "(無詢問內容)"@,
        one_line(q).len() > 0 ==> summary_of(Some(q)) == one_line(q),
{
}

// ---------------------------------------------------------------------------
// Moments
// ---------------------------------------------------------------------------

/// An expression has five fields; the seconds are always zero.
pub proof fn expressions_have_five_fields(expr: Seq<char>, after: i64)
    ensures
        words(trimmed(expr)).len() != 5 ==> next_run(expr, after) == Err::<Option<i64>, Fault>(Fault::FieldCount),
        expression_fault(expr) is None && (after < FIRST_MOMENT || after > LAST_MOMENT) ==> next_run(expr, after) == Err::<
            Option<i64>,
            Fault,
        >(Fault::Moment),
        expression_fault(expr) is None && FIRST_MOMENT <= after <= LAST_MOMENT ==> next_run(expr, after) is Ok,
        with_seconds(expr) == "0 "@ + trimmed(expr),
{
}

/// Jobs are told apart by what they are.
pub proof fn jobs_are_told_apart(scope: Seq<char>, prompt: Seq<char>, own: Option<Seq<char>>, task: MaintenanceTask)
    ensures
        label_of(JobKindView::Turn { scope, prompt }) == "turn"@,
        label_of(JobKindView::Maintenance { scope: own, task }) == "maintenance"@,
{
}

// ---------------------------------------------------------------------------
// Notices
// ---------------------------------------------------------------------------

/// A turn in a chat is told in that chat; nothing else is told anywhere.
pub proof fn turns_are_told_in_their_chat(id: Seq<char>, scope: Seq<char>, prompt: Seq<char>, own: Option<Seq<char>>, task: MaintenanceTask)
    ensures
        chat_of_job(JobKindView::Turn { scope: "user:tg-"@ + id, prompt }) == parsed_signed(id),
        stripped(scope, "user:tg-"@) is None ==> chat_of_job(JobKindView::Turn { scope, prompt }) is None,
        chat_of_job(JobKindView::Maintenance { scope: own, task }) is None,
{
    reveal_strlit("user:tg-");
    let s = "user:tg-"@ + id;
    assert(s.subrange(0, "user:tg-"@.len() as int) =~= "user:tg-"@);
    assert(s.skip("user:tg-"@.len() as int) =~= id);
}

/// What a job that went well said is told whole, under its name; a job that failed is told with the start
/// of its first line that is not blank.
pub proof fn results_are_told(name: Seq<char>, message: Seq<char>)
    ensures
        !blank(message) ==> told(name, true, message) == "⏰ "@ + name + "\n\n"@ + message,
        blank(message) ==> told(name, true, message) == "⏰ "@ + name + "（無內容）"@,
        ({
            let line = first_solid(lines(message));
            told(name, false, message) == "⏰ "@ + name + " 執行失敗："@ + (if line.len() > 300 {
                line.take(300)
            } else {
                line
            })
        }),
{
}

/// The first line that is not blank is found, trimmed, behind any number of blank ones.
pub proof fn blank_lines_are_passed_over(blanks: Seq<Seq<char>>, line: Seq<char>, rest: Seq<Seq<char>>)
    requires
        forall|k: int| 0 <= k < blanks.len() ==> blank(#[trigger] blanks[k]),
        !blank(line),
    ensures
        first_solid(blanks + seq![line] + rest) == trimmed(line),
        first_solid(blanks).len() == 0,
    decreases blanks.len(),
{
    let all = blanks + seq![line] + rest;
    if blanks.len() == 0 {
        assert(all[0] == line);
    } else {
        let d = blanks.drop_first();
        assert(blank(blanks[0]));
        assert(all[0] == blanks[0]);
        assert forall|k: int| 0 <= k < d.len() implies blank(#[trigger] d[k]) by {
            assert(d[k] == blanks[k + 1]);
        }
        blank_lines_are_passed_over(d, line, rest);
        assert(all.drop_first() =~= d + seq![line] + rest);
    }
}

/// A notice is sent as it was rendered, where the job went well and said something; a failure is sent as
/// one message.
pub proof fn notices_are_sent_as_rendered(name: Seq<char>, message: Seq<char>, rendered: Seq<Seq<char>>)
    ensures
        !blank(message) && rendered.len() > 0 ==> notice_messages(name, true, message, rendered) == rendered,
        notice_messages(name, false, message, rendered) == seq![told(name, false, message)],
        blank(message) ==> notice_messages(name, true, message, rendered) == seq![told(name, true, message)],
        notice_messages(name, true, message, rendered).len() > 0,
{
}

/// A notice goes to the chat of its job, says in that chat how the job went, and is marked up only where
/// it was rendered.
pub proof fn notices_tell_how_it_went(n: Notice, job: Job, output: ExecutionOutput, rendered: Seq<Seq<char>>)
    requires
        is_notice(n, job, output, rendered),
    ensures
        n.html ==> texts(n.messages@) == rendered,
        output.success && !blank(output.message@) && rendered.len() > 0 ==> n.html,
        !output.success ==> !n.html && n.status@ == "error"@ && texts(n.messages@) == seq![n.content@],
        output.success ==> n.status@ == "complete"@,
        n.content@ == told(job@.name, output.success, output.message@),
        chat_of_job(job@.kind) == Some(n.chat_id as int),
        texts(n.messages@).len() > 0,
        job@.kind is Turn && job@.kind->Turn_scope == n.scope@,
{
}

/// What is wrong with an expression is told with the expression itself, and a moment out of reach with the
/// moment.
pub proof fn faults_name_what_is_wrong(e: SchedulerError, expr: Seq<char>, after: i64, m: Seq<char>)
    ensures
        tells(e, expr, after, Fault::FieldCount) ==> scheduler_message(e) == "cron expression must have 5 fields: "@
            + expr,
        tells(e, expr, after, Fault::Expression(m)) ==> scheduler_message(e) == "invalid cron expression '"@ + expr
            + "': "@ + m,
        tells(e, expr, after, Fault::Moment) ==> scheduler_message(e) == "invalid timestamp: "@ + signed_decimal(
            after as int,
        ),
{
}

// ---------------------------------------------------------------------------
// Settings
// ---------------------------------------------------------------------------

/// Settings that are numbers count; others leave the usual number.
pub proof fn numbers_count(v: Seq<char>)
    ensures
        interval_of(None) == 15 * 60,
        parsed_unsigned(v, u64::MAX as nat) is None ==> interval_of(Some(v)) == 15 * 60,
        parsed_unsigned(v, u64::MAX as nat) == Some(0nat) ==> interval_of(Some(v)) == 15 * 60,
        parsed_unsigned(v, u64::MAX as nat) is Some && parsed_unsigned(v, u64::MAX as nat)->0 > 0 ==> interval_of(Some(v))
            == parsed_unsigned(v, u64::MAX as nat)->0,
        port_of(None) == 3917,
        parsed_unsigned(v, 65535) is None ==> port_of(Some(v)) == 3917,
        parsed_unsigned(v, 65535) is Some ==> port_of(Some(v)) == parsed_unsigned(v, 65535)->0,
{
}

/// A token is what stands behind the word that announces it, trimmed; without the word there is none.
pub proof fn tokens_are_announced(t: Seq<char>, h: Seq<char>)
    ensures
        bearer_of(Some("Bearer "@ + t)) == Some(trimmed(t)),
        stripped(h, "Bearer "@) is None ==> bearer_of(Some(h)) is None,
        bearer_of(None) is None,
{
    reveal_strlit("Bearer ");
    let s = "Bearer "@ + t;
    assert(s.subrange(0, "Bearer "@.len() as int) =~= "Bearer "@);
    assert(s.skip("Bearer "@.len() as int) =~= t);
}

} // verus!
