use wukong::gateway::error::GatewayError;
use wukong::gateway::upstream_error::{classify, classify_text, parse_error_field, UpstreamFailure};
use wukong::json::{parse_json, Json};

fn json_of(text: &str) -> Json {
    parse_json(text).unwrap()
}

#[test]
fn agent_failed_message_includes_stderr() {
    let err = GatewayError::AgentFailed {
        code: Some(2),
        stderr: "boom".to_string(),
    };
    assert!(err.message().contains("boom"));
    assert!(err.message().contains("2"));
}

#[test]
fn upstream_failed_message_names_the_classification() {
    let err = GatewayError::UpstreamFailed {
        kind: UpstreamFailure::ModelEol,
        status_code: Some(410),
        detail: "statusCode=410".to_string(),
    };
    let rendered = err.message();
    assert!(rendered.contains(UpstreamFailure::ModelEol.label()));
    assert!(rendered.contains("statusCode=410"));
    assert!(!rendered.contains("agent command failed"));
}

#[test]
fn structured_status_code_decides_first() {
    assert_eq!(classify("APIError", Some(410)), UpstreamFailure::ModelEol);
    assert_eq!(
        classify("APIError", Some(429)),
        UpstreamFailure::RateLimited
    );
}

#[test]
fn aborted_is_distinguishable_from_model_eol() {
    assert_eq!(
        classify("MessageAbortedError", None),
        UpstreamFailure::Aborted
    );
    assert_ne!(
        classify("MessageAbortedError", None),
        UpstreamFailure::ModelEol
    );
}

#[test]
fn does_not_treat_404_as_model_eol() {
    assert_eq!(classify("APIError", Some(404)), UpstreamFailure::Other);
    assert_ne!(classify("APIError", Some(404)), UpstreamFailure::ModelEol);
}

#[test]
fn unknown_named_error_is_other() {
    assert_eq!(classify("ContentFilterError", None), UpstreamFailure::Other);
    assert_eq!(classify("APIError", Some(500)), UpstreamFailure::Other);
}

#[test]
fn text_fallback_matches_json_and_kv_forms() {
    assert_eq!(
        classify_text(r#"{"statusCode":410,"message":"gone"}"#),
        Some(UpstreamFailure::ModelEol)
    );
    assert_eq!(
        classify_text(r#"{"status": "429"}"#),
        Some(UpstreamFailure::RateLimited)
    );
    assert_eq!(
        classify_text("statusCode=410 end of life"),
        Some(UpstreamFailure::ModelEol)
    );
    assert_eq!(
        classify_text("statusCode 429"),
        Some(UpstreamFailure::RateLimited)
    );
    assert_eq!(
        classify_text("this model reached end of life"),
        Some(UpstreamFailure::ModelEol)
    );
    assert_eq!(
        classify_text("RESOURCE_EXHAUSTED"),
        Some(UpstreamFailure::RateLimited)
    );
}

#[test]
fn text_fallback_does_not_misjudge_ordinary_output() {
    assert_eq!(
        classify_text("本季成交量 410 億美元，較上季 429 億美元下滑"),
        None
    );
    assert_eq!(
        classify_text("Revenue was 410 million, up from 429 last year"),
        None
    );
    assert_eq!(classify_text("the opportunity is gone"), None);
    assert_eq!(classify_text(r#"{"statusCode":4100}"#), None);
    assert_eq!(classify_text(""), None);
}

#[test]
fn parses_the_shape_observed_from_both_paths() {
    let sse = json_of(
        r#"{"sessionID":"ses_f7fd5b167ffehvG8KZb3Z0xZ84","error":{"name":"MessageAbortedError","data":{"message":"Aborted"}}}"#,
    );
    let parsed = parse_error_field(&sse).unwrap();
    assert_eq!(parsed.name, "MessageAbortedError");
    assert_eq!(parsed.status_code, None);
    assert_eq!(parsed.message, "Aborted");

    let cli = json_of(
        r#"{"type":"error","timestamp":1788857671885,"sessionID":"ses_x","error":{"name":"UnknownError","data":{"message":"Unexpected server error.","ref":"err_0051c87d"}}}"#,
    );
    let parsed = parse_error_field(&cli).unwrap();
    assert_eq!(parsed.name, "UnknownError");
    assert_eq!(parsed.status_code, None);

    let api = json_of(
        r#"{"error":{"name":"APIError","data":{"message":"gone","statusCode":410,"isRetryable":false}}}"#,
    );
    let parsed = parse_error_field(&api).unwrap();
    assert_eq!(parsed.status_code, Some(410));
    assert_eq!(
        classify(&parsed.name, parsed.status_code),
        UpstreamFailure::ModelEol
    );

    assert!(parse_error_field(&json_of(r#"{"type": "text"}"#)).is_none());
}

#[test]
fn labels_are_distinct_and_non_empty() {
    let all = [
        UpstreamFailure::ModelEol,
        UpstreamFailure::RateLimited,
        UpstreamFailure::Aborted,
        UpstreamFailure::Other,
    ];
    for (i, a) in all.iter().enumerate() {
        assert!(!a.label().is_empty());
        for b in &all[i + 1..] {
            assert_ne!(a.label(), b.label());
        }
    }
}
