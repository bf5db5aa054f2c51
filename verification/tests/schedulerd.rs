use wukong::chat_history::store::ChatHistoryStore;
use wukong::gateway::config::Surroundings;
use wukong::gateway::error::GatewayError;
use wukong::gateway::stream::{QuestionInfo, QuestionRequest};
use wukong::memory::prune::PrunePolicy;
use wukong::memory::store::Store;
use wukong::runtime::error::WukongError;
use wukong::runtime::maintenance::{memory_prune, memory_snapshot, AutoMaintenanceReport};
use wukong::scheduler::executor::{
    after_reply, execution_output, finish_claimed_job, grants, job_work, unanswered_error,
    unattended_result, ClaimedJobOutcome, ExecutionOutput, JobWork, PermissionPolicy, ReplyStep,
    QUESTION_NOTE_HEADER, QUESTION_REPLY_ATTEMPTS,
};
use wukong::scheduler::job::{Job, JobKind, MaintenanceTask, NewJob};
use wukong::scheduler::store::{RunStatus, SchedulerStore};
use wukong::schedulerd::auto_maintenance::AutoMaintenanceConfig;
use wukong::schedulerd::daemon::{
    maintenance_interval, maintenance_line, notifier, outcome_line, recover_interrupted_runs, resolve_config, worker_name,
    DaemonArgs, Notifier,
};
use wukong::schedulerd::notify::{chat_id_from_scope, failure_summary, notice_with, record_notice, turn_notice};

#[test]
fn defaults_enable_fifteen_minute_maintenance() {
    let cfg = AutoMaintenanceConfig::from_values(None, None, None);
    assert!(cfg.enabled);
    assert_eq!(cfg.interval_secs, 900);
    assert_eq!(cfg.threshold, 40);
}

#[test]
fn zero_disables_maintenance_and_invalid_values_use_defaults() {
    let cfg = AutoMaintenanceConfig::from_values(Some("0"), Some("bad"), Some("0"));
    assert!(!cfg.enabled);
    assert_eq!(cfg.interval_secs, 900);
    assert_eq!(cfg.threshold, 40);
}

#[test]
fn resolve_config_uses_cli_overrides() {
    let cli = DaemonArgs {
        db: Some("sqlite://x.db".to_string()),
        agent_cmd: Some("agent go".to_string()),
        scope: Some("project:X".to_string()),
        tick_secs: 60,
        lease_secs: 300,
        limit: 10,
        once: false,
        maintenance_interval_secs: None,
    };
    let env = Surroundings {
        memory_db: None,
        agent_cmd: None,
        stream: None,
        thinking: None,
        home: None,
        current_dir: None,
    };
    let cfg = resolve_config(&cli, &env);
    assert_eq!(cfg.db_url, "sqlite://x.db");
    assert_eq!(cfg.agent_command, vec!["agent".to_string(), "go".to_string()]);
    assert_eq!(cfg.scope, "project:X");
    assert!(!cfg.stream);
}

const NOW: i64 = 1_780_000_000;

fn due_job(store: &mut SchedulerStore) -> Job {
    store
        .add_job(
            NewJob {
                name: "due".to_string(),
                kind: JobKind::Turn { scope: "project:test".to_string(), prompt: "run".to_string() },
                cron: "* * * * *".to_string(),
            },
            NOW,
        )
        .unwrap()
}

#[test]
fn startup_recovery_runs_only_for_daemon_mode() {
    let mut store = SchedulerStore::new();
    let job = due_job(&mut store);
    let run = store.start_run(&job.id, 10).unwrap();
    assert_eq!(recover_interrupted_runs(&mut store, true, 20), 0);
    assert_eq!(recover_interrupted_runs(&mut store, false, 20), 1);
    assert_eq!(
        store
            .recent_runs(Some(job.id.as_str()), 10)
            .into_iter()
            .find(|item| item.id == run)
            .unwrap()
            .status,
        RunStatus::Interrupted
    );
}

fn turn_job(scope: &str) -> Job {
    Job {
        id: "job-1".to_string(),
        name: "晨間報告".to_string(),
        kind: JobKind::Turn { scope: scope.to_string(), prompt: "go".to_string() },
        cron: "0 9 * * *".to_string(),
        enabled: true,
        next_run_at: Some(1),
        last_run_at: None,
    }
}

fn ok(message: &str) -> ExecutionOutput {
    ExecutionOutput { success: true, message: message.to_string() }
}

#[test]
fn delivers_success_result_as_html_with_header() {
    let n = turn_notice(&turn_job("user:tg-555"), &ok("今天一切正常")).unwrap();
    assert_eq!(n.messages.len(), 1);
    assert_eq!(n.chat_id, 555);
    assert!(n.html);
    assert!(n.messages[0].contains("⏰ 晨間報告"));
    assert!(n.messages[0].contains("今天一切正常"));
}

#[test]
fn records_scheduled_telegram_result_in_chat_history() {
    let mut history = ChatHistoryStore::new();
    let n = turn_notice(&turn_job("user:tg-555"), &ok("今天**一切**正常")).unwrap();
    assert_eq!(record_notice(&mut history, &n, 50), Ok(1));
    let thread = history.default_thread("user:tg-555", 60);
    let messages = history.latest_messages(&thread, 10);
    assert_eq!(messages.len(), 1);
    assert_eq!(messages[0].role, "assistant");
    assert_eq!(messages[0].status, "complete");
    assert!(messages[0].content.contains("⏰ 晨間報告"));
    assert!(messages[0].content.contains("今天**一切**正常"));
    assert!(messages[0].content_html.as_deref().unwrap().contains("<strong>一切</strong>"));
}

#[test]
fn delivers_brief_plain_text_on_failure() {
    let out = ExecutionOutput { success: false, message: "boom\nstack line 2\nline 3".to_string() };
    let n = turn_notice(&turn_job("user:tg-7"), &out).unwrap();
    assert_eq!(n.messages.len(), 1);
    assert!(!n.html, "failure notice should be plain text");
    assert!(n.messages[0].contains("執行失敗"));
    assert!(n.messages[0].contains("boom"));
    assert!(!n.messages[0].contains("line 3"), "only the first line is included");
    assert_eq!(n.status, "error");
}

#[test]
fn sends_placeholder_when_success_body_is_empty() {
    let n = turn_notice(&turn_job("user:tg-9"), &ok("   ")).unwrap();
    assert_eq!(n.messages.len(), 1);
    assert!(n.messages[0].contains("（無內容）"));
    let unrendered = notice_with(&turn_job("user:tg-9"), &ok("x"), Vec::new()).unwrap();
    assert_eq!(unrendered.messages, vec!["⏰ 晨間報告（無內容）".to_string()]);
    assert!(!unrendered.html);
}

#[test]
fn skips_non_telegram_scope() {
    assert!(turn_notice(&turn_job("project:Wukong"), &ok("hi")).is_none());
    assert_eq!(chat_id_from_scope("user:tg--100"), Some(-100));
    assert_eq!(chat_id_from_scope("user:tg-me"), None);
}

#[test]
fn skips_maintenance_job() {
    let job = Job {
        id: "m".to_string(),
        name: "consolidate".to_string(),
        kind: JobKind::Maintenance {
            scope: Some("user:tg-1".to_string()),
            task: MaintenanceTask::Consolidate,
        },
        cron: "0 2 * * *".to_string(),
        enabled: true,
        next_run_at: Some(1),
        last_run_at: None,
    };
    assert!(turn_notice(&job, &ok("done")).is_none());
}

#[test]
fn failures_are_told_in_one_short_line() {
    assert_eq!(failure_summary("\n  \n  first \nsecond"), "first");
    assert_eq!(failure_summary(&"x".repeat(400)).len(), 300);
    assert_eq!(failure_summary(" \n "), "");
}

#[test]
fn the_daemon_tells_what_it_did() {
    let mut report = AutoMaintenanceReport::default();
    assert_eq!(maintenance_line(&report), None);
    report.scopes_checked = 3;
    report.memories_pruned = 4;
    assert_eq!(
        maintenance_line(&report).as_deref(),
        Some("memory maintenance completed scopes=3 summaries=0 pruned=4")
    );
    assert_eq!(maintenance_interval(None, 900), 900);
    assert_eq!(maintenance_interval(Some(0), 900), 1);
    assert_eq!(outcome_line("j", &ClaimedJobOutcome::Completed(ok("x"))), "job j succeeded");
    assert!(outcome_line("j", &ClaimedJobOutcome::LeaseLost(ok("x"))).starts_with("warning: job j lease"));
    assert_eq!(notifier(Some("0"), "t"), Notifier::SwitchedOff);
    assert_eq!(notifier(None, "  "), Notifier::NoToken);
    assert_eq!(notifier(None, " t "), Notifier::Token("t".to_string()));
    assert!(worker_name(12).starts_with("schedulerd-12-"));
    assert_ne!(worker_name(12), worker_name(12));
}

fn asks(request_id: &str, question: &str) -> QuestionRequest {
    QuestionRequest {
        request_id: request_id.to_string(),
        session_id: "ses_1".to_string(),
        questions: vec![QuestionInfo {
            question: question.to_string(),
            header: "h".to_string(),
            options: Vec::new(),
            multiple: false,
            custom: false,
        }],
    }
}

#[test]
fn permission_policy_defaults_to_reject() {
    assert_eq!(PermissionPolicy::default(), PermissionPolicy::Reject);
}

#[test]
fn permissions_are_granted_where_the_environment_says_so() {
    assert_eq!(PermissionPolicy::from_env(Some("allow")), PermissionPolicy::AllowOnce);
    assert_eq!(PermissionPolicy::from_env(None), PermissionPolicy::Reject);
}

fn unattended(policy: PermissionPolicy, request: &QuestionRequest) -> ExecutionOutput {
    let notes = match after_reply(policy, request, 1, None) {
        ReplyStep::Delivered(note) => vec![note],
        other => panic!("{other:?}"),
    };
    execution_output(unattended_result(Ok("done".to_string()), &notes))
}

#[test]
fn unattended_turn_rejects_permission_by_default() {
    let request =
        asks("permission-per_1", "OpenCode 要求執行權限：external_directory\n\n範圍：\n• /tmp/*");
    assert!(!grants(PermissionPolicy::Reject, &request));
    let out = unattended(PermissionPolicy::Reject, &request);
    assert!(out.success, "{}", out.message);
    assert!(out.message.contains(QUESTION_NOTE_HEADER), "{}", out.message);
    assert!(out.message.contains("已自動拒絕"), "{}", out.message);
    assert!(out.message.contains("external_directory"), "{}", out.message);
    assert!(out.message.contains("/tmp/*"), "{}", out.message);
}

#[test]
fn unattended_turn_can_auto_allow_permission_requests() {
    let request = asks("permission-per_1", "OpenCode 要求執行權限：bash");
    assert!(grants(PermissionPolicy::AllowOnce, &request));
    let out = unattended(PermissionPolicy::AllowOnce, &request);
    assert!(out.success, "{}", out.message);
    assert!(out.message.contains("已自動允許"), "{}", out.message);
}

#[test]
fn auto_allow_does_not_answer_plain_questions() {
    let request = asks("que_1", "要用哪一個方案？");
    assert!(!grants(PermissionPolicy::AllowOnce, &request));
    assert!(unattended(PermissionPolicy::AllowOnce, &request).success);
}

#[test]
fn a_question_is_noted_in_one_line() {
    let request = asks("que_1", "執行？\n\n範圍：/tmp");
    match after_reply(PermissionPolicy::Reject, &request, 1, None) {
        ReplyStep::Delivered(note) => assert_eq!(note, "已自動拒絕 que_1：執行？ / 範圍：/tmp"),
        other => panic!("{other:?}"),
    }
}

#[test]
fn unattended_turn_aborts_when_question_reply_keeps_failing() {
    let request = asks("permission-per_1", "OpenCode 要求執行權限：bash");
    let failure = GatewayError::Io("down".to_string());
    let mut attempts = 0;
    let note = loop {
        attempts += 1;
        match after_reply(PermissionPolicy::Reject, &request, attempts, Some(&failure)) {
            ReplyStep::Retry => {}
            ReplyStep::GiveUp(note) => break note,
            other => panic!("{other:?}"),
        }
    };
    assert_eq!(attempts, QUESTION_REPLY_ATTEMPTS);
    let out = execution_output(unattended_result(Err(unanswered_error()), &vec![note]));
    assert!(!out.success);
    assert!(out.message.contains("已中止本回合"), "{}", out.message);
    assert!(out.message.contains("處置失敗"), "{}", out.message);
    assert!(out.message.contains("permission-per_1"), "{}", out.message);
}

fn do_it(kind: JobKind) -> JobWork {
    job_work(&Job { kind, ..turn_job("project:Scheduled") }, "project:Base")
}

fn do_it_turn() -> (String, String) {
    let kind = JobKind::Turn { scope: "project:Scheduled".to_string(), prompt: "do it".to_string() };
    match do_it(kind) {
        JobWork::Turn { scope, prompt } => (scope, prompt),
        other => panic!("{other:?}"),
    }
}

#[test]
fn turn_job_overrides_scope() {
    let (scope, prompt) = do_it_turn();
    assert_eq!(scope, "project:Scheduled");
    assert!(prompt.starts_with("do it"));
}

#[test]
fn turn_job_instructs_agent_to_auto_choose_recommended_options() {
    let (_, prompt) = do_it_turn();
    assert!(prompt.contains("無人值守排程"));
    assert!(prompt.contains("自動採用推薦選項"));
}

#[test]
fn turn_job_returns_failure_message_when_backend_fails() {
    let e = WukongError::Backend(GatewayError::AgentFailed { code: Some(1), stderr: "boom".to_string() });
    let out = execution_output(Err(e));
    assert!(!out.success);
    assert!(out.message.contains("boom"));
}

#[test]
fn snapshot_maintenance_returns_text() {
    let work = do_it(JobKind::Maintenance { scope: None, task: MaintenanceTask::Snapshot });
    assert_eq!(work, JobWork::Snapshot { scope: None });
    let policy = PrunePolicy::default();
    let now = 1_780_000_000;
    let found = Store::new().snapshot(None, now, policy.max_age_secs, policy.importance_floor);
    let out = execution_output(Ok(memory_snapshot(&found)));
    assert!(out.success);
    assert!(out.message.contains("總計:"));
}

#[test]
fn prune_maintenance_uses_provided_scope() {
    let scope = Some("project:Scheduled".to_string());
    let work = do_it(JobKind::Maintenance { scope: scope.clone(), task: MaintenanceTask::Prune });
    assert_eq!(work, JobWork::Prune { scope: scope.clone() });
    let policy = PrunePolicy::default();
    let text = memory_prune(&mut Store::new(), scope.as_deref(), &policy, 1_780_000_000, false);
    let out = execution_output(Ok(text));
    assert!(out.success);
    assert!(out.message.contains("已刪除"));
}

#[test]
fn a_finished_run_gives_up_the_lock() {
    let mut store = SchedulerStore::new();
    let job = due_job(&mut store);
    let due = job.next_run_at.unwrap();
    let claimed = store.claim_due_jobs(due, "w1", 60, 10).remove(0);
    let run = store.start_run(&claimed.id, due).unwrap();
    let done = finish_claimed_job(&mut store, &claimed, "w1", run, ok("fine"), due + 1).unwrap();
    assert_eq!(done, ClaimedJobOutcome::Completed(ok("fine")));
    assert_eq!(store.recent_runs(None, 1)[0].status, RunStatus::Success);
    let lost = finish_claimed_job(&mut store, &claimed, "w1", run, ok("late"), due + 2).unwrap();
    assert_eq!(lost, ClaimedJobOutcome::LeaseLost(ok("late")));
}
