use wukong::gateway::event_map::{map_server_event, ServerEventAction};
use wukong::gateway::sse::SseParser;
use wukong::gateway::stream::{
    parse_event, QuestionInfo, QuestionOption, QuestionRequest, StreamEvent,
};
use wukong::json::{parse_json, Json};

fn parsed(text: &str) -> Json {
    parse_json(text).unwrap()
}

#[test]
fn sse_parser_collects_single_data_event() {
    let mut parser = SseParser::new();

    assert_eq!(parser.feed_line("data: {\"hello\":true}"), None);
    assert_eq!(parser.feed_line(""), Some("{\"hello\":true}".to_string()));
}

#[test]
fn sse_parser_joins_multiline_data_and_ignores_comments() {
    let mut parser = SseParser::new();

    assert_eq!(parser.feed_line(": keep-alive"), None);
    assert_eq!(parser.feed_line("event: message"), None);
    assert_eq!(parser.feed_line("data: {\"a\":"), None);
    assert_eq!(parser.feed_line("data: 1}"), None);

    assert_eq!(parser.feed_line(""), Some("{\"a\":\n1}".to_string()));
}

#[test]
fn sse_parser_ignores_blank_events() {
    let mut parser = SseParser::new();

    assert_eq!(parser.feed_line("event: ping"), None);
    assert_eq!(parser.feed_line(""), None);
}

#[test]
fn parses_text_event() {
    let ev = parse_event(r#"{"type":"text","text":"hello"}"#);
    assert_eq!(ev, Some(StreamEvent::Text("hello".to_string())));
}

#[test]
fn parses_tool_use_with_name_or_tool() {
    assert_eq!(
        parse_event(r#"{"type":"tool_use","name":"read"}"#),
        Some(StreamEvent::ToolUse("read".to_string()))
    );
    assert_eq!(
        parse_event(r#"{"type":"tool_use","tool":"edit"}"#),
        Some(StreamEvent::ToolUse("edit".to_string()))
    );
}

#[test]
fn parses_step_events() {
    assert_eq!(parse_event(r#"{"type":"step_start"}"#), Some(StreamEvent::StepStart));
    assert_eq!(parse_event(r#"{"type":"step_finish"}"#), Some(StreamEvent::StepFinish));
}

#[test]
fn ignores_malformed_and_unknown() {
    assert_eq!(parse_event("not json"), None);
    assert_eq!(parse_event(""), None);
    assert_eq!(parse_event(r#"{"type":"session.updated"}"#), None);
    assert_eq!(parse_event(r#"{"no_type":1}"#), None);
}

#[test]
fn maps_reasoning_delta_for_matching_session() {
    let value = parsed(r#"{
        "payload": {
            "type": "message.part.updated",
            "properties": {
                "delta": "thinking",
                "part": {
                    "id": "part_1",
                    "sessionID": "ses_1",
                    "messageID": "msg_1",
                    "type": "reasoning",
                    "text": "thinking total"
                }
            }
        }
    }"#);
    let mut seen_tools: Vec<String> = Vec::new();

    assert_eq!(
        map_server_event(&value, "ses_1", &mut seen_tools),
        ServerEventAction::Emit(StreamEvent::Reasoning("thinking".to_string()))
    );
}

#[test]
fn maps_reasoning_text_when_delta_missing() {
    let value = parsed(r#"{
        "payload": {
            "type": "message.part.updated",
            "properties": {
                "part": {
                    "id": "part_1",
                    "sessionID": "ses_1",
                    "messageID": "msg_1",
                    "type": "reasoning",
                    "text": "thinking total"
                }
            }
        }
    }"#);
    let mut seen_tools: Vec<String> = Vec::new();

    assert_eq!(
        map_server_event(&value, "ses_1", &mut seen_tools),
        ServerEventAction::Emit(StreamEvent::Reasoning("thinking total".to_string()))
    );
}

#[test]
fn maps_part_updates_when_session_id_is_on_properties() {
    let reasoning = parsed(r#"{
        "payload": {
            "type": "message.part.updated",
            "properties": {
                "sessionID": "ses_1",
                "delta": "thinking",
                "part": {
                    "id": "part_1",
                    "messageID": "msg_1",
                    "type": "reasoning",
                    "text": "thinking total"
                }
            }
        }
    }"#);
    let tool = parsed(r#"{
        "payload": {
            "type": "message.part.updated",
            "properties": {
                "sessionID": "ses_1",
                "part": {
                    "id": "part_tool",
                    "messageID": "msg_1",
                    "type": "tool",
                    "callID": "call_1",
                    "tool": "bash"
                }
            }
        }
    }"#);
    let mut seen_tools: Vec<String> = Vec::new();

    assert_eq!(
        map_server_event(&reasoning, "ses_1", &mut seen_tools),
        ServerEventAction::Emit(StreamEvent::Reasoning("thinking".to_string()))
    );
    assert_eq!(
        map_server_event(&tool, "ses_1", &mut seen_tools),
        ServerEventAction::Emit(StreamEvent::ToolUse("bash".to_string()))
    );
}

#[test]
fn maps_tool_use_once_per_call_id() {
    let value = parsed(r#"{
        "payload": {
            "type": "message.part.updated",
            "properties": {
                "part": {
                    "id": "part_tool",
                    "sessionID": "ses_1",
                    "messageID": "msg_1",
                    "type": "tool",
                    "callID": "call_1",
                    "tool": "bash"
                }
            }
        }
    }"#);
    let mut seen_tools: Vec<String> = Vec::new();

    assert_eq!(
        map_server_event(&value, "ses_1", &mut seen_tools),
        ServerEventAction::Emit(StreamEvent::ToolUse("bash".to_string()))
    );
    assert_eq!(
        map_server_event(&value, "ses_1", &mut seen_tools),
        ServerEventAction::Ignore
    );
}

#[test]
fn maps_question_asked_to_question_request() {
    let value = parsed(r#"{
        "payload": {
            "type": "question.asked",
            "properties": {
                "id": "que_1",
                "sessionID": "ses_1",
                "questions": [{
                    "question": "要怎麼處理 question 工具顯示？",
                    "header": "顯示方式",
                    "multiple": true,
                    "custom": true,
                    "options": [
                        {
                            "label": "輸出選項",
                            "description": "遇到 question 時直接列出可選項目"
                        },
                        {
                            "label": "查文件",
                            "description": "先確認是否有官方格式可轉換"
                        }
                    ]
                }]
            }
        }
    }"#);
    let mut seen_tools: Vec<String> = Vec::new();

    assert_eq!(
        map_server_event(&value, "ses_1", &mut seen_tools),
        ServerEventAction::Emit(StreamEvent::QuestionRequest(QuestionRequest {
            request_id: "que_1".to_string(),
            session_id: "ses_1".to_string(),
            questions: vec![QuestionInfo {
                question: "要怎麼處理 question 工具顯示？".to_string(),
                header: "顯示方式".to_string(),
                multiple: true,
                custom: true,
                options: vec![
                    QuestionOption {
                        label: "輸出選項".to_string(),
                        description: "遇到 question 時直接列出可選項目".to_string(),
                    },
                    QuestionOption {
                        label: "查文件".to_string(),
                        description: "先確認是否有官方格式可轉換".to_string(),
                    },
                ],
            }],
        }))
    );
}

#[test]
fn maps_permission_asked_to_interactive_question() {
    let value = parsed(r#"{
        "payload": {
            "type": "permission.asked",
            "properties": {
                "id": "per_1",
                "sessionID": "ses_1",
                "permission": "bash",
                "patterns": ["python clean_report.py", "python clean_report.py *"]
            }
        }
    }"#);
    let mut seen_tools: Vec<String> = Vec::new();

    assert_eq!(
        map_server_event(&value, "ses_1", &mut seen_tools),
        ServerEventAction::Emit(StreamEvent::QuestionRequest(QuestionRequest {
            request_id: "permission-per_1".to_string(),
            session_id: "ses_1".to_string(),
            questions: vec![QuestionInfo {
                question: "OpenCode 要求執行權限：bash\n\n範圍：\n• python clean_report.py\n• python clean_report.py *".to_string(),
                header: "🔐 權限確認".to_string(),
                multiple: false,
                custom: false,
                options: vec![
                    QuestionOption {
                        label: "允許一次".to_string(),
                        description: "只允許這次請求".to_string(),
                    },
                    QuestionOption {
                        label: "本次工作階段總是允許".to_string(),
                        description: "在目前 OpenCode session 記住相同規則".to_string(),
                    },
                    QuestionOption {
                        label: "拒絕".to_string(),
                        description: "拒絕執行".to_string(),
                    },
                ],
            }],
        }))
    );
}

#[test]
fn ignores_question_tool_part_update_as_progress() {
    let value = parsed(r#"{
        "payload": {
            "type": "message.part.updated",
            "properties": {
                "part": {
                    "id": "part_tool",
                    "sessionID": "ses_1",
                    "messageID": "msg_1",
                    "type": "tool",
                    "callID": "call_1",
                    "tool": "question",
                    "state": {
                        "status": "running",
                        "input": {
                            "questions": [{
                                "question": "要怎麼處理 question 工具顯示？",
                                "header": "顯示方式",
                                "options": []
                            }]
                        }
                    }
                }
            }
        }
    }"#);
    let mut seen_tools: Vec<String> = Vec::new();

    assert_eq!(
        map_server_event(&value, "ses_1", &mut seen_tools),
        ServerEventAction::Ignore
    );
}

#[test]
fn maps_step_boundaries_and_idle() {
    let mut seen_tools: Vec<String> = Vec::new();
    let step_start = parsed(r#"{
        "payload": {
            "type": "message.part.updated",
            "properties": {
                "part": { "id": "s1", "sessionID": "ses_1", "type": "step-start" }
            }
        }
    }"#);
    let step_finish = parsed(r#"{
        "payload": {
            "type": "message.part.updated",
            "properties": {
                "part": { "id": "s2", "sessionID": "ses_1", "type": "step-finish" }
            }
        }
    }"#);
    let idle = parsed(r#"{
        "payload": {
            "type": "session.idle",
            "properties": { "sessionID": "ses_1" }
        }
    }"#);

    assert_eq!(
        map_server_event(&step_start, "ses_1", &mut seen_tools),
        ServerEventAction::Emit(StreamEvent::StepStart)
    );
    assert_eq!(
        map_server_event(&step_finish, "ses_1", &mut seen_tools),
        ServerEventAction::Emit(StreamEvent::StepFinish)
    );
    assert_eq!(
        map_server_event(&idle, "ses_1", &mut seen_tools),
        ServerEventAction::Idle
    );
}

#[test]
fn ignores_events_for_other_sessions_and_text_parts() {
    let mut seen_tools: Vec<String> = Vec::new();
    let other = parsed(r#"{
        "payload": {
            "type": "message.part.updated",
            "properties": {
                "delta": "hidden",
                "part": { "id": "p", "sessionID": "ses_2", "type": "reasoning" }
            }
        }
    }"#);
    let text = parsed(r#"{
        "payload": {
            "type": "message.part.updated",
            "properties": {
                "delta": "answer",
                "part": { "id": "p", "sessionID": "ses_1", "type": "text", "text": "answer" }
            }
        }
    }"#);

    assert_eq!(
        map_server_event(&other, "ses_1", &mut seen_tools),
        ServerEventAction::Ignore
    );
    assert_eq!(
        map_server_event(&text, "ses_1", &mut seen_tools),
        ServerEventAction::Ignore
    );
}

#[test]
fn maps_sse_payload_sequence_to_stream_events_until_idle() {
    let payloads = vec![
        parsed(r#"{
            "payload": {
                "type": "message.part.updated",
                "properties": {
                    "delta": "think",
                    "part": { "id": "r1", "sessionID": "ses_1", "type": "reasoning" }
                }
            }
        }"#),
        parsed(r#"{
            "payload": {
                "type": "message.part.updated",
                "properties": {
                    "part": { "id": "t1", "sessionID": "ses_1", "type": "tool", "tool": "bash" }
                }
            }
        }"#),
        parsed(r#"{
            "payload": {
                "type": "session.idle",
                "properties": { "sessionID": "ses_1" }
            }
        }"#),
    ];
    let mut seen_tools: Vec<String> = Vec::new();
    let mut events = Vec::new();
    let mut idle = false;

    for payload in payloads {
        match map_server_event(&payload, "ses_1", &mut seen_tools) {
            ServerEventAction::Emit(event) => events.push(event),
            ServerEventAction::Idle => {
                idle = true;
                break;
            }
            ServerEventAction::Ignore => {}
        }
    }

    assert!(idle);
    assert_eq!(
        events,
        vec![
            StreamEvent::Reasoning("think".to_string()),
            StreamEvent::ToolUse("bash".to_string()),
        ]
    );
}

fn tool_part(tool: &str, input: &str) -> Json {
    parsed(&format!(
        r#"{{
            "payload": {{
                "type": "message.part.updated",
                "properties": {{
                    "part": {{
                        "id": "part_{tool}",
                        "sessionID": "ses_1",
                        "messageID": "msg_1",
                        "type": "tool",
                        "callID": "call_{tool}",
                        "tool": "{tool}",
                        "state": {{ "status": "running", "input": {input} }}
                    }}
                }}
            }}
        }}"#
    ))
}

#[test]
fn maps_whitelisted_tool_use_input_summaries() {
    let cases = [
        (
            tool_part(
                "bash",
                r#"{ "command": "cargo test -p wukong-gateway", "secret": "do not show" }"#,
            ),
            "bash\n  command: cargo test -p wukong-gateway",
        ),
        (
            tool_part(
                "read",
                r#"{ "filePath": "/workspace/crates/wukong-gateway/src/opencode_server.rs" }"#,
            ),
            "read\n  filePath: /workspace/crates/wukong-gateway/src/opencode_server.rs",
        ),
        (
            tool_part(
                "grep",
                r#"{ "pattern": "ToolUse", "path": "/workspace/crates", "include": "*.rs" }"#,
            ),
            "grep\n  pattern: ToolUse\n  path: /workspace/crates\n  include: *.rs",
        ),
        (
            tool_part("glob", r#"{ "pattern": "**/*.rs", "path": "/workspace/crates" }"#),
            "glob\n  pattern: **/*.rs\n  path: /workspace/crates",
        ),
        (
            tool_part("webfetch", r#"{ "url": "https://example.com", "format": "markdown" }"#),
            "webfetch",
        ),
    ];

    let mut seen_tools: Vec<String> = Vec::new();
    for (value, expected) in cases {
        assert_eq!(
            map_server_event(&value, "ses_1", &mut seen_tools),
            ServerEventAction::Emit(StreamEvent::ToolUse(expected.to_string()))
        );
    }

    let long_command = "a".repeat(130);
    let expected_long_command = format!("bash\n  command: {}...", "a".repeat(117));
    let value = tool_part("bash", &format!(r#"{{ "command": "{long_command}" }}"#));
    let mut seen_tools: Vec<String> = Vec::new();
    assert_eq!(
        map_server_event(&value, "ses_1", &mut seen_tools),
        ServerEventAction::Emit(StreamEvent::ToolUse(expected_long_command))
    );
}
