use wukong::chat_history::store::ChatHistoryStore;
use wukong::gateway::backend::{DsmlToolCallFilter, StreamedAnswer, DSML_TOOL_CALLS_END, DSML_TOOL_CALLS_START};
use wukong::gateway::error::GatewayError;
use wukong::gateway::upstream_error::{UpstreamError, UpstreamFailure};
use wukong::gateway::stream::{
    permission_reply, StreamEvent, PERMISSION_ALLOW_ALWAYS_LABEL, PERMISSION_ALLOW_ONCE_LABEL, PERMISSION_REJECT_LABEL,
};
use wukong::memory::answering::{answer, gather, start_recall};
use wukong::memory::candidates::ScoreParts;
use wukong::memory::error::MemoryError;
use wukong::memory::model::{MemoryItem, MemoryKind, RecallMode, RecallQuery, RememberInput};
use wukong::memory::queries::{Condition, RowOrder};
use wukong::memory::store::Store;
use wukong::order::Real;
use wukong::render::{render_html, to_telegram_html};
use wukong::scheduler::job::{JobKind, NewJob, SchedulerError};
use wukong::scheduler::store::{SchedulerStore, ID_TAKEN_TEXT, NO_JOB_TEXT};

fn item(text: &str, key: Option<&str>) -> MemoryItem {
    MemoryItem {
        kind: MemoryKind::Note,
        text: text.to_string(),
        importance: None,
        dedupe_key: key.map(|k| k.to_string()),
    }
}

fn remembered(store: &mut Store, text: &str, key: Option<&str>, now: i64) -> (i64, bool) {
    let input = RememberInput {
        scope: "project:X".to_string(),
        session_id: None,
        items: vec![item(text, key)],
    };
    store.remember(&input, now).unwrap()[0]
}

#[test]
fn a_memory_is_read_back_under_its_id() {
    let mut store = Store::new();
    let (first, new) = remembered(&mut store, "one", Some("k"), 10);
    assert!(new);
    let (second, _) = remembered(&mut store, "two", None, 20);
    let (again, new) = remembered(&mut store, "one more time", Some("k"), 30);
    assert_eq!((again, new), (first, false));
    for (id, text) in [(first, "one"), (second, "two")] {
        let found = store.select(&Condition::Ids(vec![id]), RowOrder::Stored, -1);
        assert_eq!(found.len(), 1);
        assert_eq!(store.memories[found[0]].text, text);
        assert_eq!(store.memories[found[0]].scope, "project:X");
    }
}

#[test]
fn the_last_memory_is_the_first_of_the_recent_ones() {
    let mut store = Store::new();
    remembered(&mut store, "old", None, 10);
    remembered(&mut store, "older", None, 5);
    remembered(&mut store, "new", None, 11);
    let recent = store.recent_candidates(2, None);
    assert_eq!(recent.len(), 2);
    assert_eq!(recent[0].text, "new");
    assert_eq!(recent[1].text, "old");
    let elsewhere = store.recent_candidates(2, Some(&vec!["global".to_string()]));
    assert!(elsewhere.is_empty());
}

#[test]
fn an_invalid_scope_is_named_without_its_white_space() {
    let mut store = Store::new();
    let input = RememberInput {
        scope: " bogus ".to_string(),
        session_id: None,
        items: vec![item("x", None)],
    };
    assert_eq!(
        store.remember(&input, 1),
        Err(MemoryError::InvalidScope("bogus".to_string()))
    );
    assert!(store.memories.is_empty());
    let query = RecallQuery {
        query: "deployment pipeline".to_string(),
        top_k: 5,
        scope: Some("bogus ".to_string()),
        mode: RecallMode::Hybrid,
    };
    match start_recall(&query) {
        Err(e) => assert_eq!(e, MemoryError::InvalidScope("bogus".to_string())),
        Ok(_) => panic!("the scope is invalid"),
    }
}

#[test]
fn plain_text_passes_the_filter_in_any_pieces() {
    let text = "a < b <｜｜DSML and so on <｜｜";
    let chars: Vec<char> = text.chars().collect();
    for size in 1..chars.len() {
        let mut filter = DsmlToolCallFilter::new();
        let mut shown = String::new();
        for piece in chars.chunks(size) {
            let piece: String = piece.iter().collect();
            shown.push_str(&filter.feed(&piece));
        }
        shown.push_str(&filter.finish());
        assert_eq!(shown, text);
    }
}

#[test]
fn a_block_is_left_out_with_the_line_feed_behind_it() {
    let text = format!("before{DSML_TOOL_CALLS_START}call{DSML_TOOL_CALLS_END}\nbehind");
    let mut filter = DsmlToolCallFilter::new();
    assert_eq!(filter.feed(&text), "beforebehind");
    assert_eq!(filter.finish(), "");
}

#[test]
fn pages_of_messages_meet() {
    let mut history = ChatHistoryStore::new();
    let thread = history.default_thread("global", 1);
    let other = history.default_thread("project:Y", 1);
    for i in 0..7 {
        let text = format!("m{i}");
        history.insert_message(&thread, "user", &text, None, "complete", 10 + i).unwrap();
        history.insert_message(&other, "user", "elsewhere", None, "complete", 10 + i).unwrap();
    }
    let mut pages = Vec::new();
    let mut page = history.latest_messages(&thread, 3);
    while !page.is_empty() {
        let first = page[0].id;
        pages.push(page.iter().map(|m| m.content.clone()).collect::<Vec<_>>());
        page = history.messages_before(&thread, first, 3);
    }
    pages.reverse();
    let all: Vec<String> = pages.into_iter().flatten().collect();
    assert_eq!(all, ["m0", "m1", "m2", "m3", "m4", "m5", "m6"]);
}

fn daily(name: &str) -> NewJob {
    NewJob {
        name: name.to_string(),
        kind: JobKind::Turn { scope: "global".to_string(), prompt: "p".to_string() },
        cron: "0 9 * * *".to_string(),
    }
}

#[test]
fn a_removed_job_takes_its_runs_along() {
    let mut store = SchedulerStore::new();
    store.add_job_as("a".to_string(), daily("first"), 1_700_000_000).unwrap();
    store.add_job_as("b".to_string(), daily("second"), 1_700_000_000).unwrap();
    store.start_run("a", 1).unwrap();
    let kept = store.start_run("b", 2).unwrap();
    assert!(store.remove_job("a"));
    assert!(store.get_job("a").is_none());
    let runs = store.recent_runs(None, 10);
    assert_eq!(runs.len(), 1);
    assert_eq!(runs[0].id, kept);
    assert_eq!(
        store.start_run("a", 3),
        Err(SchedulerError::Sqlx(NO_JOB_TEXT.to_string()))
    );
    assert_eq!(
        store.add_job_as("b".to_string(), daily("third"), 1_700_000_000),
        Err(SchedulerError::Sqlx(ID_TAKEN_TEXT.to_string()))
    );
}

fn tags_left_open(html: &str) -> usize {
    let mut open = 0;
    for (i, c) in html.char_indices() {
        if c == '<' {
            if html[i..].starts_with("</") {
                open -= 1;
            } else {
                open += 1;
            }
        }
    }
    open
}

fn letters_shown(html: &str) -> String {
    let mut shown = String::new();
    let mut inside = false;
    for c in html.chars() {
        match c {
            '<' => inside = true,
            '>' => inside = false,
            c if !inside && !c.is_whitespace() => shown.push(c),
            _ => {}
        }
    }
    shown
}

#[test]
fn messages_of_a_long_page_are_small_and_leave_no_tag_open() {
    let mut markdown = String::from("# Title\n\n> **bold *and slanted* text** with [a link](https://x.y) and `code`\n\n");
    markdown.push_str("| a | b |\n|---|---|\n| 1 < 2 | ~~no~~ |\n\n**");
    for _ in 0..900 {
        markdown.push_str("many words here ");
    }
    markdown.push_str("end**\n");
    let messages = to_telegram_html(&markdown);
    assert!(messages.len() > 3);
    for m in &messages {
        assert!(m.len() <= 4096);
        assert_eq!(tags_left_open(m), 0);
    }
    let shown: String = messages.iter().map(|m| letters_shown(m)).collect();
    assert_eq!(shown.matches("manywordshere").count(), 900);
    assert!(shown.starts_with("Titleboldandslantedtextwithalinkandcode"));
}

#[test]
fn a_page_is_rendered_whole() {
    assert_eq!(
        render_html("**b** <i>raw</i> [go](javascript:x)"),
        "<b>b</b> &lt;i&gt;raw&lt;/i&gt; go\n\n"
    );
}

#[test]
fn an_upstream_error_becomes_a_gateway_error() {
    let e = UpstreamError {
        name: "APIError".to_string(),
        status_code: Some(429),
        message: "slow down".to_string(),
    };
    match e.to_gateway_error() {
        GatewayError::UpstreamFailed { kind, status_code, detail } => {
            assert_eq!(kind, UpstreamFailure::RateLimited);
            assert_eq!(status_code, Some(429));
            assert!(detail.contains("slow down"));
        }
        _ => panic!("another error"),
    }
}

fn question(query: &str, scope: Option<&str>) -> RecallQuery {
    RecallQuery {
        query: query.to_string(),
        top_k: 5,
        scope: scope.map(|s| s.to_string()),
        mode: RecallMode::Hybrid,
    }
}

#[test]
fn the_question_itself_is_looked_for_where_its_words_found_nothing() {
    let mut store = Store::new();
    remembered(&mut store, "部署流程記在這裡", None, 1);
    remembered(&mut store, "something else", None, 2);
    store.update_embedding(2, vec![0, 0, 128, 63], "mock");
    let query = question("部署流程", None);
    let search = start_recall(&query).unwrap().unwrap();
    let sources = store.look_up(&query, &search, Vec::new(), false);
    assert_eq!(sources.keyword.len(), 1);
    assert_eq!(sources.keyword[0].source_signals, ["cjk_fallback"]);
    assert_eq!(sources.recent.len(), 2);
    assert!(sources.embedded.is_none());
    let sources = store.look_up(&query, &search, sources.recent, true);
    assert_eq!(sources.keyword.len(), 2);
    assert_eq!(sources.keyword[0].source_signals, ["recent"]);
    let embedded = sources.embedded.unwrap();
    assert_eq!(embedded.len(), 1);
    assert_eq!(embedded[0].0.id, 2);
    assert_eq!(embedded[0].1, [0, 0, 128, 63]);
}

#[test]
fn answers_keep_to_the_scope_of_the_question() {
    let mut store = Store::new();
    for scope in ["project:X", "project:Y", "global", "user:me"] {
        let input = RememberInput {
            scope: scope.to_string(),
            session_id: None,
            items: vec![item("deployment pipeline", None)],
        };
        store.remember(&input, 1).unwrap();
    }
    let query = question("deployment pipeline", Some("project:X"));
    let search = start_recall(&query).unwrap().unwrap();
    // The words bring memories of every scope.
    let keyword = store.recent_candidates(50, None);
    assert_eq!(keyword.len(), 4);
    let sources = store.look_up(&query, &search, keyword, false);
    let gathered = gather(&search, query.mode, sources.keyword, sources.recent, None);
    let number = |x: f64| Real { bits: x.to_bits() };
    let parts: Vec<ScoreParts> = gathered
        .iter()
        .map(|_| ScoreParts {
            score: number(0.5),
            lexical: number(1.0),
            semantic: number(0.0),
            relevance: number(1.0),
            decay: number(1.0),
            recall_bonus: number(0.0),
        })
        .collect();
    let reply = answer(&gathered, &parts, 2, 5);
    let scopes: Vec<&str> = reply.hits.iter().map(|h| h.scope.as_str()).collect();
    assert_eq!(scopes, ["project:X", "global"]);
}

#[test]
fn a_permission_is_granted_only_by_its_labels() {
    let chosen = |label: &str| vec![vec![label.to_string()]];
    assert_eq!(permission_reply(&chosen(PERMISSION_ALLOW_ONCE_LABEL)), "once");
    assert_eq!(permission_reply(&chosen(PERMISSION_ALLOW_ALWAYS_LABEL)), "always");
    assert_eq!(permission_reply(&chosen(PERMISSION_REJECT_LABEL)), "reject");
    assert_eq!(permission_reply(&chosen("yes")), "reject");
    assert_eq!(permission_reply(&Vec::new()), "reject");
    assert_eq!(permission_reply(&vec![Vec::new()]), "reject");
}

#[test]
fn an_answer_is_what_was_shown_of_it() {
    let line = |session: &str, text: &str| {
        format!("{{\"type\":\"text\",\"sessionID\":\"{session}\",\"part\":{{\"text\":\"{text}\"}}}}")
    };
    let block = format!("b{DSML_TOOL_CALLS_START}hidden{DSML_TOOL_CALLS_END}c");
    let mut answer = StreamedAnswer::new();
    let mut shown = Vec::new();
    for l in [line("ses_1", "a"), line("ses_2", &block), line("ses_3", "d <")] {
        shown.extend(answer.read_line(&l));
    }
    shown.extend(answer.end());
    assert_eq!(
        shown,
        ["a", "bc", "d ", "<"].map(|t| StreamEvent::Text(t.to_string()))
    );
    let reply = answer.outcome(true, Some(0), "").unwrap();
    assert_eq!(reply.text, "a\nbc\nd \n<");
    assert_eq!(reply.session_id.as_deref(), Some("ses_3"));
}
