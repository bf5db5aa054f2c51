use wukong::chat_history::attachments::{
    relative_attachment_path, resolve_under_upload_root, sanitize_filename, sanitize_scope, NewChatAttachment,
};
use wukong::chat_history::scopes::scope_label;
use wukong::chat_history::store::{ChatHistoryStore, HistoryError};

#[test]
fn default_thread_is_stable_per_scope() {
    let mut store = ChatHistoryStore::new();
    let a = store.default_thread("global", 5);
    let b = store.default_thread("global", 5);
    assert_eq!(a, b);
    assert_eq!(a, "scope:global");
}

#[test]
fn attachments_round_trip_for_message() {
    let mut store = ChatHistoryStore::new();
    let thread = store.default_thread("user:tg-42", 5);
    let message_id = store
        .insert_message(&thread, "user", "請看附件", None, "complete", 100)
        .unwrap();

    let new = NewChatAttachment {
        message_id,
        scope: "user:tg-42".to_string(),
        source: "telegram".to_string(),
        original_name: "report.pdf".to_string(),
        stored_name: "report.pdf".to_string(),
        relative_path: "user_tg-42/1/report.pdf".to_string(),
        mime_type: Some("application/pdf".to_string()),
        size_bytes: 1234,
        sha256: Some("abc123".to_string()),
        telegram_file_id: Some("file_1".to_string()),
        created_at: 101,
    };

    let id = store.insert_attachment(&new).unwrap();
    let attachments = store.attachments_for_messages(&[message_id]);
    assert_eq!(attachments.len(), 1);
    assert_eq!(attachments[0].id, id);
    assert_eq!(attachments[0].message_id, message_id);
    assert_eq!(attachments[0].original_name, "report.pdf");
    assert_eq!(attachments[0].mime_type.as_deref(), Some("application/pdf"));

    let loaded = store.attachment(id).unwrap();
    assert_eq!(loaded.relative_path, "user_tg-42/1/report.pdf");
}

#[test]
fn attachment_path_parts_are_sanitized() {
    assert_eq!(sanitize_scope("user:tg-42"), "user_tg-42");
    assert_eq!(sanitize_filename("../report final.pdf"), "report final.pdf");
    assert_eq!(sanitize_filename(""), "attachment");
    assert_eq!(sanitize_filename(".."), "attachment");
}

#[test]
fn turn_steps_round_trip_in_chain_order() {
    let mut store = ChatHistoryStore::new();
    let thread = store.default_thread("global", 5);
    let mid = store
        .insert_message(
            &thread,
            "assistant",
            "final",
            Some("<p>final</p>"),
            "complete",
            100,
        )
        .unwrap();
    // Insert out of seq order to prove ORDER BY seq.
    store
        .insert_step(mid, 1, "oracle", "o1", Some("<p>o1</p>"), 100)
        .unwrap();
    store
        .insert_step(mid, 0, "explorer", "e1", None, 100)
        .unwrap();

    let steps = store.list_steps(mid);
    assert_eq!(steps.len(), 2);
    assert_eq!(steps[0].role, "explorer");
    assert_eq!(steps[0].seq, 0);
    assert_eq!(steps[0].content, "e1");
    assert_eq!(steps[0].content_html, None);
    assert_eq!(steps[1].role, "oracle");
    assert_eq!(steps[1].content_html.as_deref(), Some("<p>o1</p>"));

    // Steps are scoped per message_id.
    let other = store
        .insert_message(&thread, "assistant", "other", None, "complete", 200)
        .unwrap();
    assert!(store.list_steps(other).is_empty());
}

#[test]
fn turn_events_round_trip_in_stream_order() {
    let mut store = ChatHistoryStore::new();
    let thread = store.default_thread("global", 5);
    let mid = store
        .insert_message(
            &thread,
            "assistant",
            "final",
            Some("<p>final</p>"),
            "complete",
            100,
        )
        .unwrap();

    store
        .insert_event(mid, 1, "tool_use", Some("read"), "使用工具 read", 101)
        .unwrap();
    store
        .insert_event(mid, 0, "reasoning", None, "先想一下", 100)
        .unwrap();

    let events = store.list_events(mid);
    assert_eq!(events.len(), 2);
    assert_eq!(events[0].seq, 0);
    assert_eq!(events[0].kind, "reasoning");
    assert_eq!(events[0].label, None);
    assert_eq!(events[0].content, "先想一下");
    assert_eq!(events[1].seq, 1);
    assert_eq!(events[1].kind, "tool_use");
    assert_eq!(events[1].label.as_deref(), Some("read"));
}

#[test]
fn latest_messages_include_event_count() {
    let mut store = ChatHistoryStore::new();
    let thread = store.default_thread("global", 5);
    let mid = store
        .insert_message(&thread, "assistant", "final", None, "complete", 100)
        .unwrap();
    store
        .insert_event(mid, 0, "reasoning", None, "想", 100)
        .unwrap();

    let messages = store.latest_messages(&thread, 10);
    assert_eq!(messages.len(), 1);
    assert_eq!(messages[0].event_count, 1);
}

#[test]
fn latest_messages_returns_newest_window_in_ascending_order() {
    let mut store = ChatHistoryStore::new();
    let thread = store.default_thread("global", 5);
    for i in 0..12 {
        store
            .insert_message(&thread, "user", &format!("m{i}"), None, "complete", 100 + i)
            .unwrap();
    }

    let messages = store.latest_messages(&thread, 10);
    assert_eq!(messages.len(), 10);
    assert_eq!(messages.first().unwrap().content, "m2");
    assert_eq!(messages.last().unwrap().content, "m11");
}

#[test]
fn messages_before_returns_older_window() {
    let mut store = ChatHistoryStore::new();
    let thread = store.default_thread("global", 5);
    let mut ids = Vec::new();
    for i in 0..12 {
        let id = store
            .insert_message(&thread, "user", &format!("m{i}"), None, "complete", 100 + i)
            .unwrap();
        ids.push(id);
    }

    let messages = store.messages_before(&thread, ids[10], 10);
    assert_eq!(messages.len(), 10);
    assert_eq!(messages.first().unwrap().content, "m0");
    assert_eq!(messages.last().unwrap().content, "m9");
}

#[test]
fn messages_for_date_filters_by_time_range() {
    let mut store = ChatHistoryStore::new();
    let thread = store.default_thread("global", 5);
    store
        .insert_message(&thread, "user", "old", None, "complete", 9)
        .unwrap();
    store
        .insert_message(&thread, "user", "in", None, "complete", 10)
        .unwrap();
    store
        .insert_message(
            &thread,
            "assistant",
            "also in",
            Some("<p>also in</p>"),
            "complete",
            19,
        )
        .unwrap();
    store
        .insert_message(&thread, "user", "new", None, "complete", 20)
        .unwrap();

    let messages = store.messages_for_date(&thread, 10, 20, 10);
    assert_eq!(
        messages
            .iter()
            .map(|m| m.content.as_str())
            .collect::<Vec<_>>(),
        vec!["in", "also in"]
    );
    assert_eq!(messages[1].content_html.as_deref(), Some("<p>also in</p>"));
}

#[test]
fn list_scopes_includes_existing_and_empty_default() {
    let mut store = ChatHistoryStore::new();
    let tg = store.default_thread("user:tg-915354960", 5);
    store
        .insert_message(&tg, "user", "hi", None, "complete", 10)
        .unwrap();

    let scopes = store.list_scopes("global");

    assert!(scopes.iter().any(|s| {
        s.scope == "user:tg-915354960"
            && s.label == "Telegram 915354960"
            && s.message_count == 1
            && s.updated_at == 10
    }));
    assert!(scopes
        .iter()
        .any(|s| s.scope == "global" && s.label == "Global" && s.message_count == 0));
}

#[test]
fn live_events_round_trip_by_scope_after_cursor() {
    let mut store = ChatHistoryStore::new();
    let first = store
        .insert_live_event("user:tg-12", "user", None, "hello", Some(10), 100)
        .unwrap();
    let second = store
        .insert_live_event("user:tg-12", "reasoning", None, "想一下", None, 101)
        .unwrap();
    store
        .insert_live_event("user:tg-99", "user", None, "other", Some(99), 102)
        .unwrap();

    let events = store
        .live_events_after("user:tg-12", first, 10);

    assert_eq!(events.len(), 1);
    assert_eq!(events[0].id, second);
    assert_eq!(events[0].scope, "user:tg-12");
    assert_eq!(events[0].kind, "reasoning");
    assert_eq!(events[0].content, "想一下");
    assert_eq!(events[0].message_id, None);
}

#[test]
fn live_events_prune_by_created_at() {
    let mut store = ChatHistoryStore::new();
    store
        .insert_live_event("user:tg-12", "user", None, "old", None, 100)
        .unwrap();
    let kept = store
        .insert_live_event("user:tg-12", "answer", None, "new", Some(2), 200)
        .unwrap();

    let deleted = store.prune_live_events_before(150);
    let events = store.live_events_after("user:tg-12", 0, 10);

    assert_eq!(deleted, 1);
    assert_eq!(events.len(), 1);
    assert_eq!(events[0].id, kept);
    assert_eq!(events[0].message_id, Some(2));
}

#[test]
fn labels_known_scope_prefixes() {
    assert_eq!(scope_label("user:tg-12"), "Telegram 12");
    assert_eq!(scope_label("project:Wukong"), "Project Wukong");
    assert_eq!(scope_label("global"), "Global");
    assert_eq!(scope_label("agent:fixer"), "agent:fixer");
}

#[test]
fn messages_need_a_thread_and_steps_a_message() {
    let mut store = ChatHistoryStore::new();
    assert_eq!(
        store.insert_message("scope:none", "user", "hi", None, "complete", 1),
        Err(HistoryError::UnknownThread)
    );
    assert_eq!(store.insert_step(1, 0, "oracle", "o", None, 1), Err(HistoryError::UnknownMessage));
    assert_eq!(store.insert_event(1, 0, "reasoning", None, "o", 1), Err(HistoryError::UnknownMessage));
    let new = NewChatAttachment {
        message_id: 7,
        scope: "global".to_string(),
        source: "web".to_string(),
        original_name: "a".to_string(),
        stored_name: "a".to_string(),
        relative_path: "global/7/a".to_string(),
        mime_type: None,
        size_bytes: 1,
        sha256: None,
        telegram_file_id: None,
        created_at: 1,
    };
    assert_eq!(store.insert_attachment(&new), Err(HistoryError::UnknownMessage));
    assert_eq!(HistoryError::UnknownThread.message(), "chat history: unknown thread");
    assert_eq!(HistoryError::UnknownMessage.message(), "chat history: unknown message");
}

#[test]
fn nothing_is_written_when_no_id_is_left() {
    let mut store = ChatHistoryStore::new();
    store.last_live_id = i64::MAX;
    assert_eq!(store.insert_live_event("global", "user", None, "x", None, 1), Err(HistoryError::Full));
    assert!(store.live_events.is_empty());
    assert_eq!(HistoryError::Full.message(), "chat history: no id is left");
}

#[test]
fn asking_for_a_thread_again_touches_it() {
    let mut store = ChatHistoryStore::new();
    store.default_thread("global", 5);
    store.default_thread("global", 9);
    assert_eq!(store.threads.len(), 1);
    assert_eq!(store.threads[0].created_at, 5);
    assert_eq!(store.threads[0].updated_at, 9);
    assert_eq!(store.threads[0].title, "Default");
}

#[test]
fn pages_of_a_thread_meet() {
    let mut store = ChatHistoryStore::new();
    let thread = store.default_thread("global", 1);
    for i in 0..7 {
        store.insert_message(&thread, "user", &format!("m{i}"), None, "complete", i).unwrap();
    }
    let page = store.latest_messages(&thread, 3);
    let earlier = store.messages_before(&thread, page[0].id, 100);
    let all = store.latest_messages(&thread, -1);
    assert_eq!(earlier.len() + page.len(), all.len());
    assert_eq!(earlier.last().unwrap().content, "m3");
    assert_eq!(page[0].content, "m4");
}

#[test]
fn live_events_come_in_batches_of_at_most_a_hundred() {
    let mut store = ChatHistoryStore::new();
    for i in 0..150 {
        store.insert_live_event("global", "text", None, &format!("e{i}"), None, i).unwrap();
    }
    assert_eq!(store.live_events_after("global", 0, 500).len(), 100);
    assert_eq!(store.live_events_after("global", 0, -3).len(), 1);
    let first = store.live_events_after("global", 0, 100);
    let rest = store.live_events_after("global", first.last().unwrap().id, 100);
    assert_eq!(rest.len(), 50);
    assert_eq!(rest[0].content, "e100");
}

#[test]
fn scopes_are_listed_by_their_last_touch() {
    let mut store = ChatHistoryStore::new();
    store.default_thread("project:b", 10);
    store.default_thread("project:a", 10);
    store.default_thread("user:tg-1", 20);
    let names: Vec<String> = store.list_scopes("project:a").into_iter().map(|s| s.scope).collect();
    assert_eq!(names, vec!["user:tg-1", "project:a", "project:b"]);
}

#[test]
fn kept_files_are_found_below_the_upload_root() {
    let path = relative_attachment_path("user:tg-42", 7, "../../etc/pass\nword.txt");
    assert_eq!(path, "user_tg-42/7/pass_word.txt");
    assert_eq!(
        resolve_under_upload_root("/data/uploads", &path),
        Some("/data/uploads/user_tg-42/7/pass_word.txt".to_string())
    );
    assert_eq!(resolve_under_upload_root("/data/uploads", "/etc/passwd"), None);
    assert_eq!(resolve_under_upload_root("/data/uploads", "a/../../b"), None);
    assert_eq!(sanitize_scope(":::"), "scope");
    assert_eq!(sanitize_filename("...hidden..."), "hidden");
}
