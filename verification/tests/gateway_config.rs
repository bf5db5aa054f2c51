use wukong::memory::model::{MemoryKind, RecallExplanation, RecallHit};
use wukong::order::Real;
use wukong::gateway::cli::Cli;
use wukong::gateway::config::{
    agent_command_from_env, default_db_url, default_scope, split_ws, workspace_dir, GatewayConfig, Surroundings,
};
use wukong::gateway::error::GatewayError;
use wukong::gateway::pipeline::{finish_turn, turn_request};
use wukong::gateway::prompt::{compose_prompt, summary_request};
use wukong::memory::error::MemoryError;
use wukong::memory::store::Store;

fn number(x: f64) -> Real {
    Real { bits: x.to_bits() }
}

fn hit(scope: &str, text: &str) -> RecallHit {
    RecallHit {
        id: 1,
        scope: scope.to_string(),
        kind: MemoryKind::Note,
        text: text.to_string(),
        score: number(1.0),
        explanation: RecallExplanation {
            lexical: number(1.0),
            semantic: number(0.0),
            relevance: number(1.0),
            decay: number(1.0),
            importance: number(1.0),
            recall_bonus: number(0.0),
            age_seconds: 0,
            recall_count: 0,
            source_signals: vec!["keyword".to_string()],
        },
    }
}

#[test]
fn split_ws_splits_on_whitespace() {
    assert_eq!(split_ws("opencode  run"), vec!["opencode".to_string(), "run".to_string()]);
    assert!(split_ws("   ").is_empty());
}

#[test]
fn apply_default_model_sets_config_model() {
    let mut cfg = GatewayConfig {
        scope: "global".to_string(),
        db_url: "sqlite://x.db".to_string(),
        agent_command: vec!["opencode".to_string(), "run".to_string()],
        default_model: None,
        planner_preferences: None,
        thinking: true,
        recall_top_k: 5,
        stream: false,
    };

    cfg.apply_default_model(Some("opencode/deepseek-v4-flash-free"));

    assert_eq!(cfg.default_model.as_deref(), Some("opencode/deepseek-v4-flash-free"));
}

fn command_line() -> Cli {
    Cli {
        command: None,
        prompt: vec!["hi".to_string()],
        scope: None,
        db: None,
        agent_cmd: None,
        no_stream: false,
        no_thinking: false,
        new_session: false,
    }
}

fn nothing_around() -> Surroundings {
    Surroundings {
        memory_db: None,
        agent_cmd: None,
        stream: None,
        thinking: None,
        home: None,
        current_dir: None,
    }
}

#[test]
fn cli_overrides_take_priority() {
    let cli = Cli {
        scope: Some("project:Explicit".to_string()),
        db: Some("sqlite://x.db".to_string()),
        agent_cmd: Some("my-agent go".to_string()),
        ..command_line()
    };
    let cfg = GatewayConfig::resolve(&cli, &nothing_around());
    assert_eq!(cfg.scope, "project:Explicit");
    assert_eq!(cfg.db_url, "sqlite://x.db");
    assert_eq!(cfg.agent_command, vec!["my-agent".to_string(), "go".to_string()]);
    assert_eq!(cfg.recall_top_k, 5);
    assert!(cfg.thinking);
    assert!(cfg.stream);
}

#[test]
fn no_stream_flag_disables_stream() {
    let cli = Cli { no_stream: true, ..command_line() };
    let cfg = GatewayConfig::resolve(&cli, &nothing_around());
    assert!(!cfg.stream);
}

#[test]
fn the_surroundings_decide_what_is_left_open() {
    let env = Surroundings {
        memory_db: Some("sqlite://env.db".to_string()),
        agent_cmd: Some("  ".to_string()),
        stream: Some("0".to_string()),
        thinking: Some("0".to_string()),
        home: Some("/home/w".to_string()),
        current_dir: Some("/work/Wukong".to_string()),
    };
    let cfg = GatewayConfig::resolve(&command_line(), &env);
    assert_eq!(cfg.scope, "project:Wukong");
    assert_eq!(cfg.db_url, "sqlite://env.db");
    assert_eq!(cfg.agent_command, vec!["opencode".to_string(), "run".to_string()]);
    assert!(!cfg.stream);
    assert!(!cfg.thinking);
    assert_eq!(workspace_dir(None, Some("/home/w")), "/home/w/.wukong/workspace");
    assert_eq!(workspace_dir(Some("/ws"), Some("/home/w")), "/ws");
}

#[test]
fn default_scope_is_project_prefixed() {
    assert!(default_scope(Some("/work/wukong-gateway")).starts_with("project:"));
    assert_eq!(default_scope(Some("/")), "global");
}

#[test]
fn default_db_url_is_sqlite_memory_db() {
    let url = default_db_url(Some("/home/w"));
    assert!(url.starts_with("sqlite://"));
    assert!(url.ends_with("/memory.db"));
}

#[test]
fn agent_command_from_env_never_empty() {
    assert!(!agent_command_from_env(None).is_empty());
    assert!(!agent_command_from_env(Some("")).is_empty());
    assert_eq!(agent_command_from_env(Some("a b")), vec!["a".to_string(), "b".to_string()]);
}

#[test]
fn no_hits_returns_input_unchanged() {
    assert_eq!(compose_prompt(&Vec::new(), "just this"), "just this");
}

#[test]
fn hits_are_prepended_as_context() {
    let hits = vec![hit("project:Wukong", "decided to use Rust")];
    let out = compose_prompt(&hits, "what did we decide?");
    assert!(out.contains("[相關記憶]"));
    assert!(out.contains("(project:Wukong) decided to use Rust"));
    assert!(out.contains("[使用者輸入]"));
    assert!(out.contains("what did we decide?"));
}

#[test]
fn run_turn_returns_reply_and_persists_turn() {
    let mut mem = Store::new();
    let cfg = test_cfg("project:T");
    let out = finish_turn(&mut mem, &cfg, "ping", "pong".to_string(), 100).unwrap();
    assert_eq!(out, "pong");
    let texts: Vec<String> = mem.recent_candidates(10, None).into_iter().map(|c| c.text).collect();
    assert!(texts.iter().any(|t| t.contains("User: ping")));
    assert!(texts.iter().any(|t| t.contains("Assistant: pong")));
}

#[test]
fn prior_memory_is_injected_into_prompt() {
    let hits = vec![hit("project:T", "earlier decision about Rust")];
    let request = turn_request(&test_cfg("project:T"), &hits, "tell me about rust");
    assert!(request.prompt.contains("[相關記憶]"));
    assert!(request.prompt.contains("earlier decision about Rust"));
    assert!(request.thinking);
    assert_eq!(request.session_id, None);
}

#[test]
fn a_turn_in_no_scope_is_not_remembered() {
    let mut mem = Store::new();
    let e = finish_turn(&mut mem, &test_cfg("bad scope"), "ping", "pong".to_string(), 100).unwrap_err();
    assert!(matches!(e, GatewayError::Memory(MemoryError::InvalidScope(_))));
    assert!(mem.memories.is_empty());
}

#[test]
fn summarizer_calls_backend() {
    let request = summary_request(&vec!["a".to_string(), "b".to_string()]);
    assert!(request.prompt.ends_with("\n\na\nb"));
    assert_eq!(request.session_id, None);
}

fn test_cfg(scope: &str) -> GatewayConfig {
    GatewayConfig {
        scope: scope.to_string(),
        db_url: String::new(),
        agent_command: vec![],
        default_model: None,
        planner_preferences: None,
        thinking: true,
        recall_top_k: 5,
        stream: true,
    }
}
