use wukong::gateway::error::GatewayError;
use wukong::orchestrator::role::Role;
use wukong::orchestrator::router::parse_role;
use wukong::orchestrator::{chain_context, ChainOutcome, ChainRun, OrchestratorError, Outcome};

#[test]
fn names_are_unique() {
    let names: Vec<&str> = Role::all().iter().map(|r| r.name()).collect();
    let mut deduped = names.clone();
    deduped.sort_unstable();
    deduped.dedup();
    assert_eq!(names.len(), deduped.len());
    assert_eq!(names.len(), 5);
}

#[test]
fn cards_and_descriptions_non_empty() {
    for r in Role::all() {
        assert!(!r.card().is_empty());
        assert!(!r.description().is_empty());
    }
}

#[test]
fn backend_error_displays() {
    let inner = GatewayError::AgentFailed {
        code: Some(1),
        stderr: "nope".to_string(),
    };
    let err = OrchestratorError::Backend(inner);
    assert!(err.message().contains("backend error"));
    assert!(err.message().contains("nope"));
}

#[test]
fn chain_context_empty_for_no_prior() {
    assert_eq!(chain_context(&Vec::new()), "");
}

#[test]
fn chain_context_includes_roles_and_outputs() {
    let prior = vec![
        Outcome { role: Role::Explorer, output: "找到了問題".to_string() },
        Outcome { role: Role::Fixer, output: "已修正".to_string() },
    ];
    let c = chain_context(&prior);
    assert!(c.contains("前序協作"));
    assert!(c.contains("explorer"));
    assert!(c.contains("找到了問題"));
    assert!(c.contains("fixer"));
    assert!(c.contains("已修正"));
}

#[test]
fn chain_outcome_final_is_last_step() {
    let co = ChainOutcome {
        steps: vec![
            Outcome { role: Role::Explorer, output: "a".to_string() },
            Outcome { role: Role::Fixer, output: "b".to_string() },
        ],
    };
    assert_eq!(co.final_output(), "b");
}

#[test]
fn chain_outcome_final_empty_for_no_steps() {
    let co = ChainOutcome { steps: vec![] };
    assert_eq!(co.final_output(), "");
}

#[test]
fn orchestrate_routes_then_executes() {
    let role = parse_role("fixer");
    assert_eq!(role, Role::Fixer);
    let mut run = ChainRun::new("fix the bug", vec![role]);
    assert!(run.next_request().unwrap().prompt.contains("fix the bug"));
    run.accept("done".to_string());
    assert!(run.next_request().is_none());
    let outcome = run.finish();
    assert_eq!(outcome.steps[0].role, Role::Fixer);
    assert_eq!(outcome.final_output(), "done");
}
