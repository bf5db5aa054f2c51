use wukong::memory::answering::start_recall;
use wukong::memory::error::MemoryError;
use wukong::memory::model::{MemoryItem, MemoryKind, RecallMode, RecallQuery, RememberInput};
use wukong::memory::store::Store;
use wukong::memoryd::{ct_eq, error_status, is_authorized, Config};

#[test]
fn protected_route_rejects_missing_token() {
    assert!(!is_authorized(Some("s3cret"), None));
}

#[test]
fn protected_route_rejects_wrong_token() {
    assert!(!is_authorized(Some("s3cret"), Some("Bearer nope")));
}

#[test]
fn protected_route_accepts_correct_token() {
    assert!(is_authorized(Some("s3cret"), Some("Bearer s3cret")));
}

#[test]
fn a_token_is_named_as_a_bearer() {
    assert!(!is_authorized(Some("sesame"), Some("sesame")));
    assert!(!is_authorized(Some("sesame"), Some("Bearer sesamX")));
    assert!(is_authorized(Some("sesame"), Some("Bearer sesame ")));
    assert!(is_authorized(None, None));
}

fn remembered(scope: &str, items: Vec<MemoryItem>) -> Result<Vec<(i64, bool)>, MemoryError> {
    let input = RememberInput { scope: scope.to_string(), session_id: None, items };
    Store::new().remember(&input, 1_780_000_000)
}

#[test]
fn empty_items_returns_400() {
    assert_eq!(error_status(&remembered("global", Vec::new()).unwrap_err()), 400);
}

#[test]
fn blank_recall_query_returns_400() {
    let query = RecallQuery { query: "   ".to_string(), top_k: 5, scope: None, mode: RecallMode::Hybrid };
    assert_eq!(error_status(&start_recall(&query).unwrap_err()), 400);
}

#[test]
fn invalid_scope_returns_400() {
    let x = MemoryItem { kind: MemoryKind::Note, text: "x".to_string(), importance: None, dedupe_key: None };
    assert_eq!(error_status(&remembered("bogus", vec![x]).unwrap_err()), 400);
}

#[test]
fn stats_returns_totals() {
    assert_eq!(Store::new().stats().total, 0);
}

#[test]
fn bytes_are_compared_whole() {
    assert!(ct_eq(b"abc", b"abc"));
    assert!(!ct_eq(b"abc", b"abd"));
    assert!(!ct_eq(b"abc", b"ab"));
}

#[test]
fn errors_have_their_status() {
    assert_eq!(error_status(&MemoryError::InvalidScope("x".to_string())), 400);
    assert_eq!(error_status(&MemoryError::InvalidQuery("x".to_string())), 400);
    assert_eq!(error_status(&MemoryError::NotFound), 404);
    assert_eq!(error_status(&MemoryError::Db("x".to_string())), 500);
}

#[test]
fn the_service_serves_the_machine_itself_by_default() {
    let c = Config::from_values(None, Some("/home/w"), Some("notaport"), None, Some(""));
    assert_eq!(c.db_url, "sqlite:///home/w/.wukong/memory.db");
    assert_eq!(c.port, 3917);
    assert_eq!(c.host, "127.0.0.1");
    assert_eq!(c.token, None);
    let c = Config::from_values(Some("sqlite://m.db"), None, Some("8080"), Some("0.0.0.0"), Some("t"));
    assert_eq!((c.db_url.as_str(), c.port, c.host.as_str()), ("sqlite://m.db", 8080, "0.0.0.0"));
    assert_eq!(c.token.as_deref(), Some("t"));
}
