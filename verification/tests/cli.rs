use wukong::cli::command::{
    compacted_reply, model_saved_reply, parse_session_command, run_session_command, settings_error, SessionAction,
    SessionCommand,
};
use wukong::cli::operations::{
    apply_settings_to_config, cli_mode, describe_job_kind, run_memory_op, run_schedule_op, trigger_result, CliMode,
    MemoryOutcome, ScheduleOutcome,
};
use wukong::cli::render::StreamRenderer;
use wukong::cli::repl::{classify_line, LineAction, Repl, ReplMove};
use wukong::gateway::cli::{Cli, Command, MemoryOp, ScheduleMaintenanceTaskArg, ScheduleOp};
use wukong::gateway::config::{GatewayConfig, Surroundings};
use wukong::gateway::stream::{QuestionInfo, QuestionRequest, StreamEvent};
use wukong::memory::model::MemoryKind;
use wukong::memory::store::Store;
use wukong::order::Real;
use wukong::scheduler::executor::{ClaimedJobOutcome, ExecutionOutput};
use wukong::scheduler::store::{RunStatus, SchedulerStore};

#[test]
fn parses_known_commands() {
    assert_eq!(parse_session_command("new", ""), Some(SessionCommand::New));
    assert_eq!(
        parse_session_command("compact", ""),
        Some(SessionCommand::Compact)
    );
    assert_eq!(
        parse_session_command("providers", ""),
        Some(SessionCommand::Providers)
    );
    assert_eq!(
        parse_session_command("models", ""),
        Some(SessionCommand::Models)
    );
    assert_eq!(
        parse_session_command("set_models", "opencode/deepseek-v4-flash-free"),
        Some(SessionCommand::SetModels(
            "opencode/deepseek-v4-flash-free".to_string()
        ))
    );
    assert_eq!(parse_session_command("model", "gpt"), None);
}

#[test]
fn question_request_is_surfaced_to_activity_output() {
    let mut r = StreamRenderer::new();
    {
        r.on_event(&StreamEvent::QuestionRequest(QuestionRequest {
            request_id: "permission-per_1".to_string(),
            session_id: "ses_1".to_string(),
            questions: vec![QuestionInfo {
                question: "OpenCode 要求執行權限：external_directory\n\n範圍：\n• /tmp/*"
                    .to_string(),
                header: "🔐 權限確認".to_string(),
                options: Vec::new(),
                multiple: false,
                custom: false,
            }],
        }));
    }
    let err_s = r.err.clone();
    assert!(err_s.contains("🔐 權限確認"), "{err_s}");
    assert!(err_s.contains("external_directory"), "{err_s}");
    assert!(err_s.contains("/tmp/*"), "{err_s}");
    assert!(err_s.contains("CLI 無法回覆"), "{err_s}");
    assert!(r.out.is_empty());
}

#[test]
fn reasoning_shows_only_when_nonempty() {
    let mut r = StreamRenderer::new();
    {
        r.on_event(&StreamEvent::Reasoning("".to_string()));
        r.on_event(&StreamEvent::Reasoning("想一下".to_string()));
    }
    let err_s = r.err.clone();
    assert!(err_s.contains("💭"));
    assert!(err_s.contains("想一下"));
    // Exactly one reasoning line (the empty one produced nothing).
    assert_eq!(err_s.matches("💭").count(), 1);
}

#[test]
fn text_goes_to_out_tools_to_err() {
    let mut r = StreamRenderer::new();
    {
        r.on_event(&StreamEvent::StepStart);
        r.on_event(&StreamEvent::ToolUse("read".to_string()));
        r.on_event(&StreamEvent::Text("hello ".to_string()));
        r.on_event(&StreamEvent::Text("world".to_string()));
        r.on_event(&StreamEvent::StepFinish);
    }
    assert_eq!(r.out.clone(), "hello world");
    assert_eq!(r.err.clone(), "  ▸ 使用工具 read\n");
}

#[test]
fn classify_line_cases() {
    assert_eq!(classify_line("  "), LineAction::Skip);
    assert_eq!(classify_line("/exit"), LineAction::Exit);
    assert_eq!(classify_line("/quit"), LineAction::Exit);
    assert_eq!(classify_line("/scope global"), LineAction::SetScope("global".to_string()));
    assert_eq!(classify_line("/scope   "), LineAction::Skip);
    assert_eq!(classify_line("fix the bug"), LineAction::Turn("fix the bug".to_string()));
}

#[test]
fn classify_line_recognizes_session_commands() {
    assert_eq!(classify_line("/new"), LineAction::Command(SessionCommand::New));
    assert_eq!(classify_line("/compact"), LineAction::Command(SessionCommand::Compact));
    assert_eq!(classify_line("/model gpt"), LineAction::Skip); // unknown slash → skip
}

#[test]
fn set_models_without_model_returns_usage() {
    let mut mem = Store::new();
    let reply = run_session_command(&mut mem, "global", &SessionCommand::SetModels(String::new()));
    assert!(matches!(&reply, SessionAction::Reply(t) if t.contains("用法：/set_models")));
}

#[test]
fn set_models_persists_default_model() {
    let mut mem = Store::new();
    let cmd = SessionCommand::SetModels("opencode/deepseek-v4-flash-free".to_string());
    assert_eq!(
        run_session_command(&mut mem, "global", &cmd),
        SessionAction::SaveModel("opencode/deepseek-v4-flash-free".to_string())
    );
    assert!(model_saved_reply("opencode/deepseek-v4-flash-free").contains("opencode/deepseek-v4-flash-free"));
}

#[test]
fn new_clears_session() {
    let mut mem = Store::new();
    mem.set_agent_session("global", "ses_1", 1);
    let reply = run_session_command(&mut mem, "global", &SessionCommand::New);
    assert!(matches!(&reply, SessionAction::Reply(t) if t.contains("已開新")));
    assert_eq!(mem.agent_session("global"), None);
}

#[test]
fn compact_without_session_does_not_call_backend() {
    let mut mem = Store::new();
    let reply = run_session_command(&mut mem, "global", &SessionCommand::Compact);
    assert!(matches!(&reply, SessionAction::Reply(t) if t.contains("尚無對話")));
}

#[test]
fn compact_passes_slash_compact_to_stored_session() {
    let mut mem = Store::new();
    mem.set_agent_session("global", "ses_42", 1);
    assert_eq!(
        run_session_command(&mut mem, "global", &SessionCommand::Compact),
        SessionAction::Compact { session_id: "ses_42".to_string() }
    );
    assert!(compacted_reply("compacted ok").contains("compacted ok"));
}

#[test]
fn lists_are_asked_of_the_agent() {
    let mut mem = Store::new();
    assert_eq!(
        run_session_command(&mut mem, "global", &SessionCommand::Providers),
        SessionAction::Utility(vec!["providers".to_string(), "list".to_string()])
    );
    assert_eq!(
        run_session_command(&mut mem, "global", &SessionCommand::Models),
        SessionAction::Utility(vec!["models".to_string()])
    );
    assert!(settings_error("no file".to_string()).message().contains("no file"));
}

#[test]
fn a_command_takes_what_follows_its_name() {
    assert_eq!(
        classify_line("/set_models   opencode/x  "),
        LineAction::Command(SessionCommand::SetModels("opencode/x".to_string()))
    );
    assert_eq!(classify_line("/"), LineAction::Skip);
}

#[test]
fn loop_runs_turns_until_exit_and_continues_session() {
    let lines = ["first question", "", "second question", "/exit", "ignored after exit"];
    let mut repl = Repl::new("project:T");
    let mut asked = Vec::new();
    for line in lines {
        match repl.next_move(line) {
            ReplMove::Stop => break,
            ReplMove::Turn(input) => {
                asked.push(input);
                repl.turn_answered();
            }
            _ => {}
        }
    }
    assert_eq!(repl.turns, 2);
    assert_eq!(asked, vec!["first question", "second question"]);
}

#[test]
fn loop_runs_new_command_and_clears_session() {
    let mut mem = Store::new();
    mem.set_agent_session("project:T", "ses_1", 1);
    let mut repl = Repl::new("project:T");
    match repl.next_move("/new") {
        ReplMove::Command(command) => {
            run_session_command(&mut mem, "project:T", &command);
        }
        other => panic!("{other:?}"),
    }
    assert_eq!(repl.next_move("/exit"), ReplMove::Stop);
    assert_eq!(repl.turns, 0);
    assert_eq!(mem.agent_session("project:T"), None);
}

#[test]
fn a_talk_can_move_to_another_scope() {
    let mut repl = Repl::new("project:T");
    assert_eq!(repl.next_move("/scope global"), ReplMove::Nothing);
    assert_eq!(repl.scope, "global");
    assert_eq!(repl.next_move("/new"), ReplMove::Command(SessionCommand::New));
    assert_eq!(repl.turns, 0);
}

fn bare_cli() -> Cli {
    Cli {
        command: None,
        prompt: Vec::new(),
        scope: None,
        db: None,
        agent_cmd: None,
        no_stream: false,
        no_thinking: false,
        new_session: false,
    }
}

#[test]
fn a_command_line_is_about_one_thing() {
    let mut cli = bare_cli();
    assert_eq!(cli_mode(&cli), CliMode::Repl);
    cli.prompt = vec!["fix".to_string(), "it".to_string()];
    assert_eq!(cli_mode(&cli), CliMode::Once("fix it".to_string()));
    cli.command = Some(Command::Schedule { op: ScheduleOp::List });
    assert_eq!(cli_mode(&cli), CliMode::Schedule(&ScheduleOp::List));
}

#[test]
fn settings_reach_the_configuration() {
    let mut cfg = GatewayConfig::resolve(&bare_cli(), &nothing_around());
    apply_settings_to_config(&mut cfg, Some(" m "), true, vec!["fixer".to_string()], Vec::new());
    assert_eq!(cfg.default_model.as_deref(), Some("m"));
    assert_eq!(cfg.planner_preferences.unwrap().preferred_roles, vec!["fixer".to_string()]);
}

fn nothing_around() -> Surroundings {
    Surroundings {
        memory_db: None,
        agent_cmd: None,
        stream: None,
        thinking: None,
        home: None,
        current_dir: Some("/work/Wukong".to_string()),
    }
}

const NOW: i64 = 1_780_000_000;

fn add_turn(cron: &str) -> ScheduleOp {
    ScheduleOp::AddTurn {
        name: "daily".to_string(),
        cron: cron.to_string(),
        scope: "project:T".to_string(),
        prompt: "go".to_string(),
    }
}

#[test]
fn jobs_are_added_listed_and_removed() {
    let mut store = SchedulerStore::new();
    let said = run_schedule_op(&mut store, &add_turn("0 9 * * *"), NOW, 7).unwrap();
    let id = store.jobs[0].job.id.clone();
    let next = store.jobs[0].job.next_run_at.unwrap();
    assert_eq!(said, ScheduleOutcome::Say(vec![format!("已建立排程: {id} next={next}")]));
    assert_eq!(
        run_schedule_op(&mut store, &ScheduleOp::List, NOW, 7).unwrap(),
        ScheduleOutcome::Say(vec![format!(
            "{id}\tenabled=true\tcron=0 9 * * *\tnext={next}\tname=daily\tkind=turn(scope=project:T)"
        )])
    );
    let one = |t: &str| ScheduleOutcome::Say(vec![t.to_string()]);
    assert_eq!(run_schedule_op(&mut store, &ScheduleOp::Disable { id: id.clone() }, NOW, 7).unwrap(), one("已停用排程"));
    assert_eq!(run_schedule_op(&mut store, &ScheduleOp::Trigger { id: id.clone() }, NOW, 7).unwrap(), one("找不到排程"));
    assert_eq!(run_schedule_op(&mut store, &ScheduleOp::Enable { id: id.clone() }, NOW, 7).unwrap(), one("已啟用排程"));
    assert_eq!(run_schedule_op(&mut store, &ScheduleOp::Rm { id: id.clone() }, NOW, 7).unwrap(), one("已刪除排程"));
    assert_eq!(run_schedule_op(&mut store, &ScheduleOp::Rm { id: id.clone() }, NOW, 7).unwrap(), one("找不到排程"));
    assert_eq!(run_schedule_op(&mut store, &ScheduleOp::Enable { id }, NOW, 7).unwrap(), one("找不到排程"));
}

#[test]
fn a_bad_schedule_is_refused() {
    let mut store = SchedulerStore::new();
    let e = run_schedule_op(&mut store, &add_turn("nine"), NOW, 7).unwrap_err();
    assert!(e.message().contains("cron expression must have 5 fields: nine"));
    assert!(store.jobs.is_empty());
}

#[test]
fn a_job_is_run_by_hand() {
    let mut store = SchedulerStore::new();
    let op = ScheduleOp::AddMaintenance {
        name: "tidy".to_string(),
        cron: "0 2 * * *".to_string(),
        scope: None,
        task: ScheduleMaintenanceTaskArg::Prune,
    };
    run_schedule_op(&mut store, &op, NOW, 7).unwrap();
    let id = store.jobs[0].job.id.clone();
    match run_schedule_op(&mut store, &ScheduleOp::Trigger { id: id.clone() }, NOW, 7).unwrap() {
        ScheduleOutcome::Run { job, worker_id } => {
            assert_eq!(worker_id, "manual-7");
            assert_eq!(describe_job_kind(&job.kind), "maintenance(task=Prune,scope=<all>)");
        }
        other => panic!("{other:?}"),
    }
    let run = store.start_run(&id, NOW).unwrap();
    store.finish_run(run, RunStatus::Failure, "bad\nnews", NOW + 5);
    assert_eq!(
        run_schedule_op(&mut store, &ScheduleOp::Runs { id: None, limit: 5 }, NOW, 7).unwrap(),
        ScheduleOutcome::Say(vec![format!(
            "{run}\tjob={id}\tstatus=failure\tstarted={NOW}\tfinished={}\tbad news",
            NOW + 5
        )])
    );
}

#[test]
fn what_a_run_by_hand_came_to() {
    let good = ClaimedJobOutcome::Completed(ExecutionOutput { success: true, message: "ok".to_string() });
    assert_eq!(trigger_result(good), (Some("ok".to_string()), Ok(())));
    let bad = ClaimedJobOutcome::Completed(ExecutionOutput { success: false, message: "no".to_string() });
    let (said, result) = trigger_result(bad);
    assert_eq!(said.as_deref(), Some("no"));
    assert!(result.unwrap_err().message().contains("no"));
    let lost = ClaimedJobOutcome::LeaseLost(ExecutionOutput { success: true, message: "ok".to_string() });
    let (said, result) = trigger_result(lost);
    assert_eq!(said, None);
    assert!(result.unwrap_err().message().contains("lease"));
}

#[test]
fn the_memory_is_kept_from_the_command_line() {
    let mut mem = Store::new();
    for i in 0..2 {
        mem.insert_memory(None, "project:T", MemoryKind::Event, "e", Real { bits: 1.0f64.to_bits() }, i, None);
    }
    let op = MemoryOp::Snapshot { scope: None };
    match run_memory_op(&mut mem, &op, "project:T", None, NOW).unwrap() {
        MemoryOutcome::Say(t) => assert!(t.contains("總計: 2")),
        other => panic!("{other:?}"),
    }
    let op = MemoryOp::Consolidate { scope: None, dry_run: true };
    match run_memory_op(&mut mem, &op, "project:T", None, NOW).unwrap() {
        MemoryOutcome::Say(t) => assert_eq!(t, "[dry-run] 將產生 1 筆摘要:\n  批 1: 2 筆來源 [1, 2]"),
        other => panic!("{other:?}"),
    }
    let op = MemoryOp::Consolidate { scope: Some("global".to_string()), dry_run: false };
    assert_eq!(
        run_memory_op(&mut mem, &op, "project:T", None, NOW).unwrap(),
        MemoryOutcome::Fold { scope: "global".to_string() }
    );
    let op = MemoryOp::Prune { scope: None, dry_run: false };
    assert_eq!(
        run_memory_op(&mut mem, &op, "project:T", None, NOW).unwrap(),
        MemoryOutcome::Say("已刪除 0 筆".to_string())
    );
    let op = MemoryOp::Export { dir: None };
    assert_eq!(
        run_memory_op(&mut mem, &op, "project:T", Some("/md"), NOW).unwrap(),
        MemoryOutcome::Export { dir: "/md".to_string() }
    );
    assert!(run_memory_op(&mut mem, &op, "project:T", None, NOW).unwrap_err().message().contains("WUKONG_MD_DIR"));
}
