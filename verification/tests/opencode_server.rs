use wukong::gateway::backend::{
    agent_timeout, agent_timeout_error, run_outcome, AgentAttachment, AgentRequest, DsmlToolCallFilter, StreamedAnswer,
};
use wukong::gateway::error::GatewayError;
use wukong::gateway::opencode_server::{
    extract_latest_assistant_text, extract_session_id, extract_text, permission_reply_url, question_reject_url,
    question_reply_url, read_empty_reply, read_reply, OpencodeServerBackend,
};
use wukong::gateway::server_message::{
    check_inline_size, file_part, inline_url, parse_model_override, permission_reply_body, prompt_part,
    question_reply_body, supported_attachment_mime, MessagePart, Transport,
};
use wukong::gateway::server_turn::{next_stage, SessionAttachments, Stage, StageEnd};
use wukong::gateway::stream::StreamEvent;
use wukong::json::{parse_json, Json};

fn parsed(text: &str) -> Json {
    parse_json(text).unwrap()
}

#[test]
fn question_api_urls_target_session_scoped_routes() {
    assert_eq!(
        question_reply_url("http://server", "ses_1", "que_1"),
        "http://server/api/session/ses_1/question/que_1/reply"
    );
    assert_eq!(
        question_reject_url("http://server", "ses_1", "que_1"),
        "http://server/api/session/ses_1/question/que_1/reject"
    );
}

#[test]
fn extracts_latest_assistant_text_from_message_list() {
    let value = parsed(r#"[
        {
            "info": { "id": "msg_user", "role": "user", "sessionID": "ses_1" },
            "parts": [{ "type": "text", "text": "question" }]
        },
        {
            "info": { "id": "msg_old", "role": "assistant", "sessionID": "ses_1" },
            "parts": [{ "type": "text", "text": "old" }]
        },
        {
            "info": { "id": "msg_new", "role": "assistant", "sessionID": "ses_1" },
            "parts": [
                { "type": "reasoning", "text": "hidden" },
                { "type": "text", "text": "hello" },
                { "type": "text", "text": "world" }
            ]
        }
    ]"#);

    assert_eq!(extract_latest_assistant_text(&value), "hello\nworld");
}

#[test]
fn latest_assistant_text_is_empty_when_absent() {
    let value = parsed(r#"[
        {
            "info": { "id": "msg_user", "role": "user", "sessionID": "ses_1" },
            "parts": [{ "type": "text", "text": "question" }]
        }
    ]"#);

    assert_eq!(extract_latest_assistant_text(&value), "");
}

#[test]
fn extracts_text_from_nested_message_parts() {
    let value = parsed(r#"{
        "info": { "id": "msg_1" },
        "parts": [
            { "type": "reasoning", "text": "hidden" },
            { "type": "text", "text": "hello" },
            { "type": "text", "text": "world" }
        ]
    }"#);

    assert_eq!(extract_text(&value), "hello\nworld");
}

#[test]
fn extracts_session_id_from_session_response() {
    let value = parsed(r#"{ "id": "ses_123", "title": "New Session" }"#);
    assert_eq!(extract_session_id(&value).as_deref(), Some("ses_123"));
}

#[test]
fn parses_provider_model_override_for_server_api() {
    let model = parse_model_override("opencode/deepseek-v4-flash-free").unwrap();

    assert_eq!(model.provider_id, "opencode");
    assert_eq!(model.model_id, "deepseek-v4-flash-free");
}

#[test]
fn question_reply_body_serializes_answers() {
    let body = question_reply_body(&vec![
        vec!["A".to_string()],
        vec!["B".to_string(), "C".to_string()],
    ]);
    assert_eq!(body, parsed(r#"{ "answers": [["A"], ["B", "C"]] }"#));
}

#[test]
fn permission_api_uses_current_reply_contract() {
    assert_eq!(
        permission_reply_url("http://server", "per_1"),
        "http://server/permission/per_1/reply"
    );
    assert_eq!(permission_reply_body("always").unwrap(), parsed(r#"{ "reply": "always" }"#));
    assert!(permission_reply_body("maybe").is_err());
}

#[test]
fn trims_base_url_once() {
    let backend = OpencodeServerBackend::from_values("http://opencode-server:4096///", None, None, None, None, None);
    assert_eq!(backend.base_url, "http://opencode-server:4096");
}

fn request_with_attachment(path: &str, name: &str, mime: &str) -> AgentRequest {
    let mut req = AgentRequest::plain("describe".to_string());
    req.attachments.push(AgentAttachment {
        path: path.to_string(),
        original_name: name.to_string(),
        mime_type: Some(mime.to_string()),
    });
    req
}

fn parts_of(backend: &OpencodeServerBackend, req: &AgentRequest, bytes: &[u8]) -> Result<Vec<MessagePart>, GatewayError> {
    let mut parts = vec![prompt_part(req)];
    for a in &req.attachments {
        let root = Ok(backend.workspace.clone().unwrap());
        let path = backend.validated_attachment_path(&a.path, Ok(a.path.clone()), &root)?;
        let mime = supported_attachment_mime(a)?;
        let url = match backend.transport(&path, &root.unwrap())? {
            Transport::Address(url) => url,
            Transport::Read => {
                check_inline_size(&a.original_name, bytes.len() as u64)?;
                inline_url(&mime, &bytes.to_vec())
            }
        };
        parts.push(file_part(a, mime, url));
    }
    Ok(parts)
}

#[test]
fn server_backend_builds_shared_file_parts() {
    let backend = OpencodeServerBackend::from_values(
        "http://127.0.0.1:1",
        Some("/host/ws".to_string()),
        Some("shared"),
        Some("/workspace".to_string()),
        None,
        None,
    );
    let req = request_with_attachment(
        "/host/ws/.wukong/uploads/user/42/quarter report.pdf",
        "../quarter report.pdf",
        "application/pdf",
    );
    assert_eq!(
        parts_of(&backend, &req, b"%PDF-test").unwrap(),
        vec![
            MessagePart::Text { text: "describe".to_string() },
            MessagePart::File {
                mime: "application/pdf".to_string(),
                url: "file:///workspace/.wukong/uploads/user/42/quarter%20report.pdf".to_string(),
                filename: "quarter report.pdf".to_string(),
            },
        ]
    );
}

#[test]
fn server_backend_builds_inline_file_parts() {
    let backend = OpencodeServerBackend::from_values(
        "http://127.0.0.1:1",
        Some("/host/ws".to_string()),
        Some("inline"),
        None,
        None,
        None,
    );
    let req = request_with_attachment("/host/ws/data.csv", "data.csv", "text/csv");
    assert_eq!(
        parts_of(&backend, &req, b"a,b\n1,2\n").unwrap(),
        vec![
            MessagePart::Text { text: "describe".to_string() },
            MessagePart::File {
                mime: "text/plain".to_string(),
                url: "data:text/plain;base64,YSxiCjEsMgo=".to_string(),
                filename: "data.csv".to_string(),
            },
        ]
    );
}

#[test]
fn server_backend_rejects_attachment_outside_workspace() {
    let backend = OpencodeServerBackend::from_values("http://127.0.0.1:1", Some("/host/ws".to_string()), None, None, None, None);
    let req = request_with_attachment("/tmp/outside.txt", "outside.txt", "text/plain");
    let err = parts_of(&backend, &req, b"").unwrap_err();
    assert!(err.message().contains("工作區外"));
}

#[test]
fn server_backend_rehydrates_attachments_when_session_disappears() {
    let mut kept = SessionAttachments::new();
    let first = request_with_attachment("/host/ws/data.csv", "data.csv", "text/csv");
    kept.remember_attachments("ses_1", &first);
    let bare = AgentRequest::plain("again".to_string());
    let full = kept.rehydrate_request("ses_1", &bare);
    assert_eq!(full.attachments, first.attachments);
    assert_eq!(full.prompt, "again");
    assert!(kept.rehydrate_request("ses_2", &bare).attachments.is_empty());
    assert_eq!(next_stage(Stage::Send, true, true, StageEnd::NotFound), Stage::ReplaceSession);
    assert_eq!(next_stage(Stage::ReplaceSession, true, true, StageEnd::Done), Stage::Resend);
    assert_eq!(next_stage(Stage::Resend, true, true, StageEnd::NotFound), Stage::Failed);
}

#[test]
fn health_check_decode_error_includes_phase() {
    let err = read_reply("health", 200, "200 OK", "not json").unwrap_err();
    assert!(err.message().contains("health"));
    assert!(read_empty_reply("reply", 204, "204 No Content", "").is_ok());
    assert!(read_empty_reply("reply", 500, "500 Internal Server Error", "oops").is_err());
}

#[test]
fn agent_timeout_defaults_to_twenty_minutes() {
    assert_eq!(agent_timeout(None), 1200);
    assert_eq!(agent_timeout(Some("0")), 1200);
    assert_eq!(agent_timeout(Some(" 30 ")), 30);
    assert!(agent_timeout_error("stuck").message().contains("stuck"));
}

#[test]
fn agent_cli_backend_captures_stdout() {
    assert_eq!(run_outcome(true, Some(0), "hello\n", "").unwrap().text, "hello");
}

#[test]
fn agent_cli_backend_reports_failure() {
    match run_outcome(false, Some(3), "", " boom ").unwrap_err() {
        GatewayError::AgentFailed { code, stderr } => {
            assert_eq!(code, Some(3));
            assert_eq!(stderr, "boom");
        }
        other => panic!("{other:?}"),
    }
}

#[test]
fn agent_cli_run_streaming_parses_ndjson() {
    let mut answer = StreamedAnswer::new();
    let mut events = Vec::new();
    for line in [
        r#"{"type":"step_start","sessionID":"ses_T"}"#,
        r#"{"type":"tool_use","part":{"type":"tool","tool":"read"}}"#,
        r#"{"type":"text","part":{"type":"text","text":"hello"}}"#,
        r#"{"type":"step_finish"}"#,
        "--format",
        "json",
        "ignored",
    ] {
        events.extend(answer.read_line(line));
    }
    events.extend(answer.end());
    let resp = answer.outcome(true, Some(0), "").unwrap();
    assert_eq!(resp.text, "hello");
    assert_eq!(resp.session_id, Some("ses_T".to_string()));
    assert_eq!(
        events,
        vec![
            StreamEvent::StepStart,
            StreamEvent::ToolUse("read".to_string()),
            StreamEvent::Text("hello".to_string()),
            StreamEvent::StepFinish,
        ]
    );
}

#[test]
fn agent_cli_run_streaming_removes_dsml_tool_call_blocks_from_text() {
    let mut answer = StreamedAnswer::new();
    let mut events = Vec::new();
    events.extend(answer.read_line(
        r#"{"type":"text","part":{"type":"text","text":"before\n<｜｜DSML｜｜tool_calls>\n<｜｜DSML｜｜invoke name=\"bash\">\n<｜｜DSML｜｜parameter name=\"command\" string=\"true\">pwd</｜｜DSML｜｜parameter>\n</｜｜DSML｜｜invoke>\n</｜｜DSML｜｜tool_calls>\nafter"}}"#,
    ));
    events.extend(answer.end());
    let resp = answer.outcome(true, Some(0), "").unwrap();
    assert_eq!(resp.text, "before\nafter");
    assert_eq!(events, vec![StreamEvent::Text("before\nafter".to_string())]);
}

#[test]
fn a_block_cut_apart_is_still_removed() {
    let mut filter = DsmlToolCallFilter::new();
    let mut out = filter.feed("before <｜｜DSML｜｜tool_");
    out.push_str(&filter.feed("calls>hidden</｜｜DSML｜｜tool_calls> after"));
    out.push_str(&filter.finish());
    assert!(out.starts_with("before"));
    assert!(out.ends_with("after"));
    assert!(!out.contains("hidden"));
}
