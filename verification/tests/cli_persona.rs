use wukong::memory::model::{MemoryKind, RecallExplanation, RecallHit};
use wukong::order::Real;
use wukong::cli::persona::{build_prompt, build_prompt_with_skill};
use wukong::orchestrator::role::Role;
use wukong::runtime::skill_assets::SkillSpec;

fn number(x: f64) -> Real {
    Real { bits: x.to_bits() }
}

fn hit(scope: &str, text: &str) -> RecallHit {
    RecallHit {
        id: 1,
        scope: scope.to_string(),
        kind: MemoryKind::Note,
        text: text.to_string(),
        score: number(1.0),
        explanation: RecallExplanation {
            lexical: number(1.0),
            semantic: number(0.0),
            relevance: number(1.0),
            decay: number(1.0),
            importance: number(1.0),
            recall_bonus: number(0.0),
            age_seconds: 0,
            recall_count: 0,
            source_signals: vec!["keyword".to_string()],
        },
    }
}

#[test]
fn build_prompt_includes_persona_role_and_input() {
    let p = build_prompt(Role::Fixer, &Vec::new(), "fix the bug");
    assert!(p.contains("孫悟空"));
    assert!(p.contains("你是 Fixer"));
    assert!(p.contains("fix the bug"));
}

#[test]
fn build_prompt_includes_memory_block_when_hits_present() {
    let hits = vec![hit("project:Wukong", "earlier decision")];
    let p = build_prompt(Role::Oracle, &hits, "what now?");
    assert!(p.contains("[相關記憶]"));
    assert!(p.contains("earlier decision"));
    assert!(p.contains("你是 Oracle"));
}

#[test]
fn build_prompt_with_skill_includes_skill_block() {
    let skill = SkillSpec {
        name: "test-driven-development".to_string(),
        content: "# TDD".to_string(),
    };
    let p = build_prompt_with_skill(Role::Fixer, Some(&skill), &Vec::new(), "fix the bug");
    assert!(p.contains("[技能規範]"));
    assert!(p.contains("test-driven-development"));
    assert!(p.contains("你是 Fixer"));
    assert!(p.contains("fix the bug"));
}

#[test]
fn build_prompt_with_skill_omits_skill_block_when_absent() {
    let p = build_prompt_with_skill(Role::Oracle, None, &Vec::new(), "think about it");
    assert!(!p.contains("[技能規範]"));
    assert!(p.contains("你是 Oracle"));
    assert!(p.contains("think about it"));
}
