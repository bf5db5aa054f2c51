use wukong::gateway::backend::{AgentAttachment, AgentRequest, AgentResponse};
use wukong::gateway::config::GatewayConfig;
use wukong::gateway::error::GatewayError;
use wukong::memory::model::{MemoryItem, MemoryKind, RememberInput};
use wukong::memory::prune::PrunePolicy;
use wukong::memory::store::Store;
use wukong::orchestrator::role::Role;
use wukong::orchestrator::router::{
    chain_request, parse_chain, parse_role, parse_skill_chain, route_request, skill_plan_request, SkillRouteOption,
};
use wukong::orchestrator::{execution_request, ChainRun};
use wukong::runtime::maintenance::{memory_prune, memory_snapshot, Maintenance, ScopeWork};
use wukong::runtime::session::{begin_final_session, finish_compaction, SessionPolicy, SessionStart};
use wukong::runtime::turn::{
    conclude_turn, planner_preference_hint, session_passthrough, session_to_delete, ObservedStep, Passthrough, TurnMove,
    TurnOutput, TurnPlan, TurnProgress,
};

const NOW: i64 = 1_780_000_000;

struct Seen {
    prompts: Vec<String>,
    sessions: Vec<Option<String>>,
    models: Vec<Option<String>>,
    attachments: Vec<Vec<AgentAttachment>>,
    roles: Vec<Role>,
    observed: Vec<ObservedStep>,
}

fn skills() -> Vec<SkillRouteOption> {
    vec![SkillRouteOption {
        skill_name: "test-driven-development",
        description: "新功能或 bugfix 的測試先行實作",
        primary_role: Role::Fixer,
        collaborator_role: Some(Role::Oracle),
    }]
}

fn test_cfg(scope: &str) -> GatewayConfig {
    GatewayConfig {
        scope: scope.to_string(),
        db_url: String::new(),
        agent_command: vec![],
        default_model: None,
        planner_preferences: None,
        thinking: true,
        recall_top_k: 5,
        stream: true,
    }
}

fn see(seen: &mut Seen, request: AgentRequest) {
    seen.prompts.push(request.prompt);
    seen.sessions.push(request.session_id);
    seen.models.push(request.model);
    seen.attachments.push(request.attachments);
}

fn run_with(
    store: &mut Store,
    cfg: &GatewayConfig,
    input: &str,
    attachments: Vec<AgentAttachment>,
    replies: &[&str],
) -> (TurnOutput, Seen) {
    let mut seen = Seen {
        prompts: Vec::new(),
        sessions: Vec::new(),
        models: Vec::new(),
        attachments: Vec::new(),
        roles: Vec::new(),
        observed: Vec::new(),
    };
    let hint = planner_preference_hint(&cfg.planner_preferences);
    see(&mut seen, skill_plan_request(input, &skills(), hint.as_ref()));
    let plan = TurnPlan {
        input: input.to_string(),
        scope: cfg.scope.clone(),
        thinking: cfg.thinking,
        model: cfg.default_model.clone(),
        attachments,
        hits: Vec::new(),
        steps: parse_skill_chain(replies[0]),
        stored: store.agent_session(&cfg.scope),
        skill_root: "/ws/.wukong/skills/superpowers".to_string(),
        bin: "wukong".to_string(),
    };
    let mut progress = TurnProgress::new();
    let mut next = 1;
    loop {
        let (request, role) = match plan.next_move(&progress) {
            TurnMove::Step { role, request, .. } => (request, Some(role)),
            TurnMove::Repair { request } => (request, None),
            TurnMove::Done { answer } => {
                let out = conclude_turn(store, &plan, &progress, answer, "owner", 300, NOW, NOW).unwrap();
                return (out, seen);
            }
        };
        see(&mut seen, request);
        seen.roles.extend(role);
        let reply = AgentResponse { text: replies[next].to_string(), session_id: Some("ses_new".to_string()) };
        next += 1;
        seen.observed.extend(plan.accept(&mut progress, reply));
    }
}

fn run(store: &mut Store, input: &str, replies: &[&str]) -> (TurnOutput, Seen) {
    run_with(store, &test_cfg("project:T"), input, Vec::new(), replies)
}

fn remembers(store: &Store, text: &str) -> bool {
    store.memories.iter().any(|m| m.text == text)
}

#[test]
fn run_turn_routes_executes_and_persists() {
    let mut mem = Store::new();
    let (out, _) = run(&mut mem, "fix the bug", &["fixer", "done"]);
    assert_eq!(out.role, Role::Fixer);
    assert_eq!(out.text, "done");
    assert!(remembers(&mem, "User: fix the bug"));
}

#[test]
fn execution_prompt_carries_role_and_not_persona() {
    let (_, seen) = run(&mut Store::new(), "fix the bug", &["fixer", "done"]);
    assert_eq!(seen.prompts.len(), 2);
    assert!(!seen.prompts[1].contains("孫悟空"));
    assert!(seen.prompts[1].contains("你是 Fixer"));
}

#[test]
fn run_turn_passes_default_model_to_final_step() {
    let mut cfg = test_cfg("project:T");
    cfg.default_model = Some("opencode/deepseek-v4-flash-free".to_string());
    let (_, seen) = run_with(&mut Store::new(), &cfg, "hello", Vec::new(), &["oracle", "answer"]);
    assert_eq!(
        seen.models.last().and_then(Clone::clone).as_deref(),
        Some("opencode/deepseek-v4-flash-free")
    );
}

#[test]
fn run_turn_with_attachments_forwards_paths_to_backend() {
    let attachments = vec![AgentAttachment {
        path: "/tmp/report.pdf".to_string(),
        original_name: "report.pdf".to_string(),
        mime_type: Some("application/pdf".to_string()),
    }];
    let (_, seen) = run_with(
        &mut Store::new(),
        &test_cfg("project:T"),
        "請分析",
        attachments.clone(),
        &["oracle", "answer"],
    );
    assert_eq!(seen.attachments.last().unwrap(), &attachments);
}

#[test]
fn run_turn_sends_planner_preferences_to_skill_planner() {
    let mut cfg = test_cfg("project:T");
    cfg.apply_planner_preferences(
        true,
        vec!["fixer".to_string(), "oracle".to_string()],
        vec!["systematic-debugging".to_string()],
    );
    let (_, seen) = run_with(&mut Store::new(), &cfg, "fix the bug", Vec::new(), &["fixer|systematic-debugging", "done"]);
    let planner_prompt = &seen.prompts[0];
    assert!(planner_prompt.contains("[User Preferences]"));
    assert!(planner_prompt.contains("Preferred roles: fixer, oracle"));
    assert!(planner_prompt.contains("Preferred skills: systematic-debugging"));
    assert!(planner_prompt.contains("not hard constraints"));
}

#[test]
fn run_turn_drops_invalid_preference_ids_before_planning() {
    let mut cfg = test_cfg("project:T");
    cfg.apply_planner_preferences(true, vec!["unknown-role".to_string()], vec!["unknown-skill".to_string()]);
    let (_, seen) = run_with(&mut Store::new(), &cfg, "think", Vec::new(), &["oracle|none", "answer"]);
    assert!(!seen.prompts[0].contains("[User Preferences]"));
}

#[test]
fn run_turn_injects_planned_skill_into_execute_prompt() {
    let (out, seen) = run(&mut Store::new(), "fix the bug", &["fixer|test-driven-development", "done"]);
    assert_eq!(out.role, Role::Fixer);
    assert_eq!(out.text, "done");
    assert_eq!(seen.prompts.len(), 2);
    assert!(seen.prompts[0].contains("test-driven-development"));
    assert!(seen.prompts[1].contains("[技能規範指引]"));
    assert!(seen.prompts[1].contains("test-driven-development"));
    assert!(seen.prompts[1].contains(".wukong/skills/superpowers/test-driven-development/SKILL.md"));
    assert!(!seen.prompts[1].contains("Docker runtime"));
    assert!(!seen.prompts[1].contains("crates/wukong-skills/assets/superpowers"));
    assert!(seen.prompts[1].contains("你是 Fixer"));
}

#[test]
fn run_turn_injects_scheduling_capability_into_final_step_only() {
    let (_, seen) = run(&mut Store::new(), "schedule it", &["explorer, fixer", "e1", "f2"]);
    assert_eq!(seen.prompts.len(), 3);
    assert!(!seen.prompts[1].contains("[排程能力]"));
    assert!(seen.prompts[2].contains("[排程能力]"));
    assert!(seen.prompts[2].contains("schedule add-turn"));
    assert!(seen.prompts[2].contains("--scope \"project:T\""));
}

#[test]
fn run_turn_ignores_unknown_planned_skill() {
    let (_, seen) = run(&mut Store::new(), "think", &["oracle|unknown-skill", "answer"]);
    assert_eq!(seen.prompts.len(), 2);
    assert!(!seen.prompts[1].contains("[技能規範指引]"));
    assert!(seen.prompts[1].contains("你是 Oracle"));
}

#[test]
fn run_turn_threads_session_into_final_step() {
    let mut mem = Store::new();
    mem.set_agent_session("project:T", "ses_old", NOW);
    let (_, seen) = run(&mut mem, "hi", &["oracle", "answer"]);
    assert_eq!(seen.sessions[0], None);
    assert_eq!(seen.sessions[1], Some("ses_old".to_string()));
    assert_eq!(mem.agent_session("project:T"), Some("ses_new".to_string()));
    let state = mem.agent_session_state("project:T").unwrap();
    assert_eq!(state.turn_count, 1);
    let records = mem.records(Some("project:T"), None, 10);
    assert_eq!(records.records.len(), 2);
    assert!(records.records.iter().all(|record| record.session_id.as_deref() == Some("ses_new")));
}

#[test]
fn run_turn_threads_only_final_chain_step() {
    let mut mem = Store::new();
    mem.set_agent_session("project:T", "ses_old", NOW);
    let (_, seen) = run(&mut mem, "go", &["explorer, fixer", "e1", "f2"]);
    assert_eq!(seen.sessions, vec![None, None, Some("ses_old".to_string())]);
}

#[test]
fn run_turn_runs_multi_role_chain() {
    let mut mem = Store::new();
    let (out, seen) = run(&mut mem, "build and fix", &["explorer, fixer", "f1", "f2"]);
    assert_eq!(seen.roles, vec![Role::Explorer, Role::Fixer]);
    assert_eq!(out.text, "f2");
    assert_eq!(out.role, Role::Fixer);
    assert_eq!(seen.prompts.len(), 3);
    assert!(seen.prompts[2].contains("f1"));
    assert!(remembers(&mem, "Assistant: f2"));
    assert!(!remembers(&mem, "Assistant: f1"));
}

#[test]
fn run_turn_observed_reports_only_non_final_steps() {
    let (out, seen) = run(&mut Store::new(), "build and fix", &["explorer, fixer", "e1", "f2"]);
    let steps: Vec<(Role, String)> = seen.observed.into_iter().map(|s| (s.role, s.output)).collect();
    assert_eq!(steps, vec![(Role::Explorer, "e1".to_string())]);
    assert_eq!(out.role, Role::Fixer);
    assert_eq!(out.text, "f2");
}

#[test]
fn run_turn_observed_skips_empty_non_final_step() {
    let (out, seen) = run(&mut Store::new(), "go", &["explorer, fixer", "", "f2"]);
    assert!(seen.observed.is_empty());
    assert_eq!(out.text, "f2");
}

#[test]
fn run_turn_traced_reports_role_skill_and_output_for_helper_steps() {
    let (out, seen) = run(
        &mut Store::new(),
        "build and fix",
        &["explorer|systematic-debugging\nfixer|none", "e1", "f2"],
    );
    assert_eq!(
        seen.observed,
        vec![ObservedStep {
            role: Role::Explorer,
            skill_name: Some("systematic-debugging".to_string()),
            output: "e1".to_string(),
        }]
    );
    assert_eq!(out.role, Role::Fixer);
    assert_eq!(out.text, "f2");
}

#[test]
fn run_turn_falls_back_when_final_output_empty() {
    let mut mem = Store::new();
    let (out, _) = run(&mut mem, "find and fix the bug", &["explorer, fixer", "找到了根因", ""]);
    assert_eq!(out.role, Role::Explorer);
    assert_eq!(out.text, "找到了根因");
    assert!(remembers(&mem, "Assistant: 找到了根因"));
}

#[test]
fn run_turn_all_empty_repairs_with_text() {
    let mut mem = Store::new();
    let (out, seen) = run(&mut mem, "你目前是什麼模型", &["fixer", "", "直接回答原問題"]);
    assert_eq!(out.text, "直接回答原問題");
    assert_eq!(seen.prompts.len(), 3);
    assert!(seen.prompts[2].contains("[修復回覆]"));
    assert!(seen.prompts[2].contains("不要呼叫工具"));
    assert!(seen.prompts[2].contains("你目前是什麼模型"));
    assert!(remembers(&mem, "Assistant: 直接回答原問題"));
}

#[test]
fn run_turn_all_empty_repair_empty_returns_sentinel() {
    let (out, seen) = run(&mut Store::new(), "go", &["fixer", "", ""]);
    assert_eq!(out.text, "(本回合未產生文字輸出)");
    assert_eq!(seen.prompts.len(), 3);
}

#[test]
fn run_turn_injects_final_answer_directive_into_final_step_only() {
    let (_, seen) = run(&mut Store::new(), "go", &["explorer, fixer", "e1", "f2"]);
    assert_eq!(seen.prompts.len(), 3);
    assert!(!seen.prompts[1].contains("[輸出要求]"));
    assert!(seen.prompts[2].contains("[輸出要求]"));
}

#[test]
fn compact_passthrough_uses_backend_session_control() {
    assert_eq!(session_passthrough("ses_42", "/compact"), Passthrough::Compact);
    match session_passthrough("ses_42", "/undo") {
        Passthrough::Run(q) => {
            assert_eq!(q.prompt, "/undo");
            assert_eq!(q.session_id.as_deref(), Some("ses_42"));
        }
        other => panic!("{other:?}"),
    }
}

#[test]
fn passthrough_sends_requested_command_to_session() {
    assert_eq!(session_passthrough("ses_42", "/compact"), Passthrough::Compact);
    let request = AgentRequest::compaction("ses_42", None);
    assert_eq!(request.prompt, "/compact");
    assert_eq!(request.session_id, Some("ses_42".to_string()));
}

#[test]
fn failed_turn_releases_session_lease() {
    let mut mem = Store::new();
    mem.set_agent_session("project:T", "ses_existing", NOW);
    let policy = SessionPolicy { compact_every_turns: 20, lease_secs: 300 };
    begin_final_session(&mut mem, "project:T", "me", policy, NOW).unwrap();
    assert!(mem.acquire_agent_session_lease("project:T", "retry", NOW, 300).is_none());
    assert!(mem.release_agent_session_lease("project:T", "me", NOW));
    assert!(mem.acquire_agent_session_lease("project:T", "retry", NOW, 300).is_some());
}

fn seeded(turns: usize, session: &str) -> Store {
    let mut mem = Store::new();
    mem.set_agent_session("project:T", session, NOW);
    for _ in 0..turns {
        mem.acquire_agent_session_lease("project:T", "seed", NOW, 300).unwrap();
        mem.finish_agent_session_turn("project:T", "seed", Some(session), NOW).unwrap();
    }
    mem
}

#[test]
fn pre_final_compaction_resets_turn_count_before_reuse() {
    let mut mem = seeded(1, "ses_1");
    let policy = SessionPolicy { compact_every_turns: 1, lease_secs: 300 };
    let start = begin_final_session(&mut mem, "project:T", "me", policy, NOW).unwrap();
    assert_eq!(start, SessionStart::Compact("ses_1".to_string()));
    let prepared = finish_compaction(&mut mem, "project:T", "me", policy, "ses_1", None, NOW).unwrap();
    assert_eq!(prepared.session_id.as_deref(), Some("ses_1"));
    assert!(prepared.rotated_from.is_none());
    assert_eq!(mem.agent_session_state("project:T").unwrap().turn_count, 0);
}

fn failed(code: i32) -> GatewayError {
    GatewayError::AgentFailed { code: Some(code), stderr: "compact failed".to_string() }
}

#[test]
fn unsupported_compaction_rotates_after_new_session_succeeds() {
    let mut mem = seeded(20, "ses_old");
    let policy = SessionPolicy::default();
    let start = begin_final_session(&mut mem, "project:T", "me", policy, NOW).unwrap();
    assert_eq!(start, SessionStart::Compact("ses_old".to_string()));
    let prepared =
        finish_compaction(&mut mem, "project:T", "me", policy, "ses_old", Some(&failed(404)), NOW).unwrap();
    assert_eq!(prepared.session_id, None);
    assert_eq!(prepared.rotated_from.as_deref(), Some("ses_old"));
    assert_eq!(
        session_to_delete(&prepared.rotated_from, &Some("ses_new".to_string())),
        Some("ses_old".to_string())
    );
}

#[test]
fn a_passing_compaction_failure_keeps_the_session() {
    let mut mem = seeded(20, "ses_old");
    let policy = SessionPolicy::default();
    begin_final_session(&mut mem, "project:T", "me", policy, NOW).unwrap();
    let prepared =
        finish_compaction(&mut mem, "project:T", "me", policy, "ses_old", Some(&failed(500)), NOW).unwrap();
    assert_eq!(prepared.session_id.as_deref(), Some("ses_old"));
    assert_eq!(prepared.rotated_from, None);
    assert_eq!(mem.agent_session("project:T"), Some("ses_old".to_string()));
    assert_eq!(session_to_delete(&prepared.rotated_from, &Some("ses_old".to_string())), None);
}

#[test]
fn a_lease_of_another_is_waited_for() {
    let mut mem = Store::new();
    mem.acquire_agent_session_lease("project:T", "other", NOW, 300).unwrap();
    let e = begin_final_session(&mut mem, "project:T", "me", SessionPolicy::default(), NOW + 1).unwrap_err();
    assert!(e.message().contains("project:T"));
    assert_eq!(SessionPolicy::from_env(Some("5"), Some("60")), SessionPolicy { compact_every_turns: 5, lease_secs: 60 });
}

fn item(kind: MemoryKind, text: &str) -> MemoryItem {
    MemoryItem { kind, text: text.to_string(), importance: None, dedupe_key: None }
}

fn remember(mem: &mut Store, scope: &str, kind: MemoryKind, text: &str) {
    let input = RememberInput {
        scope: scope.to_string(),
        session_id: Some("ses_1".to_string()),
        items: vec![item(kind, text)],
    };
    mem.remember(&input, NOW).unwrap();
}

#[test]
fn snapshot_returns_human_readable_text() {
    let mut mem = Store::new();
    remember(&mut mem, "project:T", MemoryKind::Note, "note");
    let policy = PrunePolicy::default();
    let out = memory_snapshot(&mem.snapshot(Some("project:T"), NOW, policy.max_age_secs, policy.importance_floor));
    assert!(out.contains("總計: 1"));
    assert!(out.contains("project:T"));
}

#[test]
fn prune_dry_run_returns_candidate_text() {
    let mut mem = Store::new();
    let out = memory_prune(&mut mem, Some("project:T"), &PrunePolicy::default(), NOW, true);
    assert!(out.contains("[dry-run] 將刪除 0 筆"));
}

#[test]
fn auto_maintenance_consolidates_all_scopes_and_prunes_only_folded_sources() {
    let mut mem = Store::new();
    for scope in ["project:A", "project:B"] {
        for text in ["a", "b"] {
            remember(&mut mem, scope, MemoryKind::Event, text);
        }
    }
    remember(&mut mem, "project:C", MemoryKind::Decision, "keep decision");
    let mut work = Maintenance::start(&mem, 2);
    loop {
        match work.next_scope(&mut mem) {
            ScopeWork::Over => break,
            ScopeWork::Leave => {}
            ScopeWork::Fold { scope, batches } => {
                for batch in &batches {
                    mem.fold_batch(&scope, batch, "summary", NOW);
                }
                work.scope_folded(&mut mem, &scope, batches.len());
            }
        }
    }
    let report = work.report;
    assert_eq!(report.scopes_checked, 3);
    assert_eq!(report.scopes_consolidated, 2);
    assert_eq!(report.summaries_created, 2);
    assert_eq!(report.memories_pruned, 4);
    let records = mem.records(None, None, 20);
    assert!(records.records.iter().any(|record| record.text == "keep decision"));
}

#[test]
fn orchestrate_chain_runs_each_role_in_order() {
    let mut run = ChainRun::new("fix it", parse_chain("explorer, fixer"));
    let mut prompts = Vec::new();
    let mut replies = vec!["修好了".to_string(), "找到了".to_string()];
    while let Some(request) = run.next_request() {
        prompts.push(request.prompt);
        run.accept(replies.pop().unwrap());
    }
    let co = run.finish();
    assert_eq!(co.steps.len(), 2);
    assert_eq!(co.steps[0].role, Role::Explorer);
    assert_eq!(co.steps[1].role, Role::Fixer);
    assert_eq!(co.final_output(), "修好了");
    assert_eq!(prompts.len(), 2);
    assert!(prompts[1].contains("找到了"));
}

#[test]
fn execute_prompt_carries_role_card() {
    let request = execution_request(parse_role("fixer"), "fix the bug");
    assert!(request.prompt.contains("你是 Fixer"));
    assert!(request.prompt.contains("fix the bug"));
}

#[test]
fn unparseable_route_falls_back_to_oracle() {
    assert_eq!(parse_role("no role here"), Role::Oracle);
}

#[test]
fn plan_chain_parses_backend_reply() {
    assert_eq!(parse_chain("explorer, fixer"), vec![Role::Explorer, Role::Fixer]);
    assert!(chain_request("build a thing").prompt.contains("build a thing"));
    assert!(route_request("build a thing").prompt.contains("build a thing"));
}

#[test]
fn plan_skill_chain_parses_backend_reply() {
    let steps = parse_skill_chain("fixer|test-driven-development");
    assert_eq!(steps.len(), 1);
    assert_eq!(steps[0].role, Role::Fixer);
    assert_eq!(steps[0].skill_name.as_deref(), Some("test-driven-development"));
    assert!(skill_plan_request("fix the bug", &skills(), None).prompt.contains("test-driven-development"));
}

#[test]
fn skill_planning_uses_plan_agent_without_question_tool() {
    let request = skill_plan_request("fix the bug", &skills(), None);
    assert_eq!(request.agent.as_deref(), Some("plan"));
    assert_eq!(request.tool_overrides, vec![("question".to_string(), false)]);
}
