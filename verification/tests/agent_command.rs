use wukong::gateway::backend::{
    assemble_argv, choose_backend, opencode_binary, AgentAttachment, AgentBackend,
};

#[test]
fn assemble_argv_plain() {
    let argv = assemble_argv(
        &vec!["opencode".to_string(), "run".to_string()],
        None,
        false,
        None,
        None,
        &Vec::new(),
        "hi",
    );
    assert_eq!(argv, vec!["opencode", "run", "hi"]);
}

#[test]
fn assemble_argv_with_session_and_thinking() {
    let argv = assemble_argv(
        &vec!["opencode".to_string(), "run".to_string()],
        Some("ses_x"),
        true,
        None,
        None,
        &Vec::new(),
        "hi",
    );
    assert_eq!(
        argv,
        vec!["opencode", "run", "-s", "ses_x", "--thinking", "hi"]
    );
}

#[test]
fn assemble_argv_adds_model_before_prompt() {
    let argv = assemble_argv(
        &vec!["opencode".to_string(), "run".to_string()],
        None,
        false,
        Some("opencode/deepseek-v4-flash-free"),
        None,
        &Vec::new(),
        "hi",
    );
    assert_eq!(
        argv,
        vec![
            "opencode",
            "run",
            "--model",
            "opencode/deepseek-v4-flash-free",
            "hi"
        ]
    );
}

#[test]
fn assemble_argv_replaces_existing_model_flag() {
    let argv = assemble_argv(
        &vec![
            "opencode".to_string(),
            "run".to_string(),
            "--model".to_string(),
            "old/model".to_string(),
        ],
        Some("ses_x"),
        true,
        Some("new/model"),
        None,
        &Vec::new(),
        "hi",
    );
    assert_eq!(
        argv,
        vec![
            "opencode",
            "run",
            "-s",
            "ses_x",
            "--thinking",
            "--model",
            "new/model",
            "hi"
        ]
    );
}

#[test]
fn assemble_argv_adds_files_before_prompt() {
    let files = vec![
        AgentAttachment {
            path: "/tmp/report.pdf".to_string(),
            original_name: "report.pdf".to_string(),
            mime_type: Some("application/pdf".to_string()),
        },
        AgentAttachment {
            path: "/tmp/photo.jpg".to_string(),
            original_name: "photo.jpg".to_string(),
            mime_type: Some("image/jpeg".to_string()),
        },
    ];
    let argv = assemble_argv(
        &vec!["opencode".to_string(), "run".to_string()],
        None,
        false,
        None,
        None,
        &files,
        "describe",
    );
    assert_eq!(
        argv,
        vec![
            "opencode",
            "run",
            "--file",
            "/tmp/report.pdf",
            "--file",
            "/tmp/photo.jpg",
            "describe"
        ]
    );
}

#[test]
fn assemble_argv_adds_agent_before_prompt() {
    let argv = assemble_argv(
        &vec!["opencode".to_string(), "run".to_string()],
        None,
        false,
        None,
        Some("plan"),
        &Vec::new(),
        "hi",
    );
    assert_eq!(argv, vec!["opencode", "run", "--agent", "plan", "hi"]);
}

#[test]
fn assemble_argv_omits_agent_when_none_or_blank() {
    let none = assemble_argv(
        &vec!["opencode".to_string(), "run".to_string()],
        None,
        false,
        None,
        None,
        &Vec::new(),
        "hi",
    );
    assert!(!none.contains(&"--agent".to_string()));
    let blank = assemble_argv(
        &vec!["opencode".to_string(), "run".to_string()],
        None,
        false,
        None,
        Some("  "),
        &Vec::new(),
        "hi",
    );
    assert!(!blank.contains(&"--agent".to_string()));
}

#[test]
fn opencode_binary_uses_first_base_command_arg() {
    assert_eq!(
        opencode_binary(&vec!["opencode".to_string(), "run".to_string()]),
        "opencode"
    );
    assert_eq!(
        opencode_binary(&vec!["/usr/local/bin/opencode".to_string(), "run".to_string()]),
        "/usr/local/bin/opencode"
    );
}

#[test]
fn backend_from_env_uses_cli_when_server_url_missing() {
    let backend = choose_backend(None, vec!["opencode".to_string(), "run".to_string()], None);

    assert!(matches!(backend, AgentBackend::Cli(_)));
}
