use wukong::memory::model::{MemoryKind, RecallExplanation, RecallHit};
use wukong::order::Real;
use wukong::gateway::error::GatewayError;
use wukong::orchestrator::role::Role;
use wukong::runtime::persona::{
    build_prompt, build_prompt_with_skill, final_answer_directive, scheduling_bin, scheduling_capability_hint,
};
use wukong::runtime::session::{is_unsupported_compaction, parse_compact_threshold};
use wukong::runtime::skill_assets::{assets_are_current, plan_skill_assets, SkillSpec};
use wukong::runtime::util::{now_unix, resolve_skill_workspace, unix_seconds, upload_root};

const ROOT: &str = "crates/wukong-skills/assets/superpowers";

fn number(x: f64) -> Real {
    Real { bits: x.to_bits() }
}

fn hit(scope: &str, text: &str) -> RecallHit {
    RecallHit {
        id: 1,
        scope: scope.to_string(),
        kind: MemoryKind::Note,
        text: text.to_string(),
        score: number(1.0),
        explanation: RecallExplanation {
            lexical: number(1.0),
            semantic: number(0.0),
            relevance: number(1.0),
            decay: number(1.0),
            importance: number(1.0),
            recall_bonus: number(0.0),
            age_seconds: 0,
            recall_count: 0,
            source_signals: vec!["keyword".to_string()],
        },
    }
}

#[test]
fn build_prompt_includes_role_and_input() {
    let p = build_prompt(Role::Fixer, &Vec::new(), "fix the bug");
    assert!(!p.contains("孫悟空"));
    assert!(p.contains("你是 Fixer"));
    assert!(p.contains("fix the bug"));
}

#[test]
fn persona_build_prompt_includes_memory_block_when_hits_present() {
    let hits = vec![hit("project:Wukong", "earlier decision")];
    let p = build_prompt(Role::Oracle, &hits, "what now?");
    assert!(p.contains("[相關記憶]"));
    assert!(p.contains("earlier decision"));
    assert!(p.contains("你是 Oracle"));
}

#[test]
fn persona_build_prompt_with_skill_includes_skill_block() {
    let p = build_prompt_with_skill(Role::Fixer, Some("test-driven-development"), ROOT, &Vec::new(), "fix the bug");
    assert!(p.contains("[技能規範指引]"));
    assert!(p.contains("test-driven-development"));
    assert!(
        p.contains("crates/wukong-skills/assets/superpowers/test-driven-development/SKILL.md")
    );
    assert!(p.contains("你是 Fixer"));
    assert!(p.contains("fix the bug"));
}

#[test]
fn persona_build_prompt_with_skill_omits_skill_block_when_absent() {
    let p = build_prompt_with_skill(Role::Oracle, None, ROOT, &Vec::new(), "think about it");
    assert!(!p.contains("[技能規範指引]"));
    assert!(p.contains("你是 Oracle"));
    assert!(p.contains("think about it"));
}

#[test]
fn final_answer_directive_requires_text_summary() {
    let d = final_answer_directive();
    assert!(d.contains("[輸出要求]"));
    assert!(d.contains("總結"));
}

#[test]
fn scheduling_hint_embeds_scope_bin_and_command() {
    let hint = scheduling_capability_hint("project:Wukong", "wukong");
    assert!(hint.contains("[排程能力]"));
    assert!(hint.contains("schedule add-turn"));
    assert!(hint.contains("--scope \"project:Wukong\""));
    assert!(hint.contains("`wukong schedule list`"));
}

#[test]
fn scheduling_hint_honors_custom_bin() {
    let hint = scheduling_capability_hint("global", "/opt/wukong");
    assert!(hint.contains("`/opt/wukong schedule add-turn"));
}

#[test]
fn scheduling_bin_defaults_to_wukong() {
    assert_eq!(scheduling_bin(None), "wukong");
}

#[test]
fn compact_threshold_parser_supports_disable() {
    assert_eq!(parse_compact_threshold(None), 20);
    assert_eq!(parse_compact_threshold(Some("0")), 0);
    assert_eq!(parse_compact_threshold(Some("bad")), 20);
    assert_eq!(parse_compact_threshold(Some("-1")), 20);
}

#[test]
fn only_404_and_405_are_unsupported() {
    assert!(is_unsupported_compaction(&GatewayError::AgentFailed {
        code: Some(404),
        stderr: String::new(),
    }));
    assert!(is_unsupported_compaction(&GatewayError::AgentFailed {
        code: Some(405),
        stderr: String::new(),
    }));
    assert!(!is_unsupported_compaction(&GatewayError::AgentFailed {
        code: Some(500),
        stderr: String::new(),
    }));
}

#[test]
fn now_unix_is_after_2020() {
    // 2020-01-01T00:00:00Z. A sanity floor that never trips on a sane clock.
    assert!(now_unix() > 1_577_836_800);
}

#[test]
fn upload_root_ends_with_wukong_uploads() {
    let p = upload_root(None, Some("/work"));
    assert!(p.ends_with("uploads"));
    assert!(p.contains(".wukong"));
    assert_eq!(upload_root(Some("/ws"), Some("/work")), "/ws/.wukong/uploads");
}

#[test]
fn workspace_dir_uses_current_dir_when_env_missing() {
    assert_eq!(resolve_skill_workspace(None, Some("/here")), Some("/here".to_string()));
}

#[test]
fn workspace_dir_uses_wukong_workspace_when_set() {
    assert_eq!(resolve_skill_workspace(Some(" /ws "), Some("/here")), Some("/ws".to_string()));
}

#[test]
fn materialize_writes_skill_files_under_workspace() {
    let skills = vec![SkillSpec { name: "brainstorming".to_string(), content: "# Think".to_string() }];
    let plan = plan_skill_assets("/ws", 12, &skills, "src");
    assert_eq!(plan.root, "/ws/.wukong/skills/superpowers");
    assert_eq!(plan.staging, "/ws/.wukong/skills/.superpowers.tmp.12");
    assert_eq!(plan.retired, "/ws/.wukong/skills/.superpowers.old.12");
    assert_eq!(
        plan.files,
        vec![
            (format!("{}/brainstorming/SKILL.md", plan.staging), "# Think".to_string()),
            (format!("{}/SOURCE.md", plan.staging), "src".to_string()),
        ]
    );
    assert!(assets_are_current(Some("src"), "src"));
    assert!(!assets_are_current(None, "src"));
}

#[test]
fn the_clock_is_read_in_seconds() {
    assert_eq!(unix_seconds(Some(5)), 5);
    assert_eq!(unix_seconds(None), 0);
}
