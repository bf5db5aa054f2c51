use wukong::memory::error::MemoryError;
use wukong::memory::markdown::{render_markdown_entry, scope_to_filename};
use wukong::memory::model::{MemoryKind, RecallMode};
use wukong::memory::scope::Scope;

#[test]
fn invalid_scope_message_includes_input() {
    let err = MemoryError::InvalidScope("bogus".to_string());
    assert_eq!(err.message(), "invalid scope: bogus");
}

#[test]
fn embed_error_message_includes_detail() {
    let err = MemoryError::Embed("model load failed".to_string());
    assert_eq!(err.message(), "embedding error: model load failed");
}

#[test]
fn scope_to_filename_sanitizes() {
    assert_eq!(scope_to_filename("project:Wukong"), "project_Wukong.md");
    assert_eq!(scope_to_filename("global"), "global.md");
}

#[test]
fn render_entry_has_kind_and_text() {
    let s = render_markdown_entry(0, MemoryKind::Event, "hello");
    assert!(s.contains("1970-01-01T00:00:00Z"));
    assert!(s.contains("· event"));
    assert!(s.contains("hello"));
}

#[test]
fn recall_mode_defaults_to_hybrid() {
    assert_eq!(RecallMode::default(), RecallMode::Hybrid);
}

#[test]
fn memory_kind_db_roundtrip() {
    for k in [
        MemoryKind::Decision,
        MemoryKind::Event,
        MemoryKind::Skill,
        MemoryKind::Note,
        MemoryKind::Summary,
    ] {
        assert_eq!(MemoryKind::from_db_str(k.as_str()), k);
    }
    assert_eq!(MemoryKind::from_db_str("garbage"), MemoryKind::Note);
}

#[test]
fn parses_global() {
    assert_eq!(Scope::parse("global").unwrap(), Scope::Global);
}

#[test]
fn parses_prefixed_scopes() {
    assert_eq!(
        Scope::parse("project:Wukong").unwrap(),
        Scope::Project("Wukong".to_string())
    );
    assert_eq!(
        Scope::parse("agent:main").unwrap(),
        Scope::Agent("main".to_string())
    );
}

#[test]
fn rejects_unknown_prefix_and_empty_name() {
    assert!(Scope::parse("team:x").is_err());
    assert!(Scope::parse("project:").is_err());
    assert!(Scope::parse("nonsense").is_err());
}

#[test]
fn display_roundtrips() {
    let s = Scope::Project("Wukong".to_string());
    assert_eq!(Scope::parse(&s.text()).unwrap(), s);
}

#[test]
fn ancestry_appends_global() {
    let a = Scope::Agent("main".to_string()).ancestry();
    assert_eq!(a, vec![Scope::Agent("main".to_string()), Scope::Global]);
    assert_eq!(Scope::Global.ancestry(), vec![Scope::Global]);
}
