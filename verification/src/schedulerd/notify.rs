//! What a chat is told of a scheduled turn.
//!
//! A turn that was scheduled from a chat has the scope of that chat, and its result goes back
//! there. Nobody is told of other jobs.
use crate::chat_history::store::{
    scopes_have_their_own_threads, thread_id_of, touched, with_thread, ChatHistoryStore, HistoryError, HistoryView,
};
use crate::chat_history::rows::MessageView;
use crate::render::markdown::parsed_marks;
use crate::render::{messages, to_telegram_html, to_web_html, web_html};
use crate::scheduler::executor::ExecutionOutput;
use crate::scheduler::job::{Job, JobKind, JobKindView};
use crate::text::{
    blank, chars_of, is_blank, lines, parse_signed, parsed_signed, part, push_text, split_lines, str_strip, str_trim,
    string_of, stripped, texts, trimmed,
};
use vstd::prelude::*;

verus! {

/// The chat of a scope.
pub open spec fn chat_of(scope: Seq<char>) -> Option<int> {
    match stripped(scope, "user:tg-"@) {
        Some(id) => parsed_signed(id),
        None => None,
    }
}

/// The chat of a scope.
pub fn chat_id_from_scope(scope: &str) -> (r: Option<i64>)
    ensures
        match r {
            Some(id) => chat_of(scope@) == Some(id as int),
            None => chat_of(scope@) is None,
        },
{
    match str_strip(scope, "user:tg-") {
        Some(id) => parse_signed(id.as_str()),
        None => None,
    }
}

/// The first line that is not blank, trimmed; nothing where all are.
pub open spec fn first_solid(list: Seq<Seq<char>>) -> Seq<char>
    decreases list.len(),
{
    if list.len() == 0 {
        Seq::empty()
    } else if !blank(list[0]) {
        trimmed(list[0])
    } else {
        first_solid(list.drop_first())
    }
}

/// How many characters of an error are told.
pub const SUMMARY_LIMIT: usize = 300;

/// A failure in one line.
pub open spec fn summary_of(message: Seq<char>) -> Seq<char> {
    let line = first_solid(lines(message));
    if line.len() > SUMMARY_LIMIT {
        line.take(SUMMARY_LIMIT as int)
    } else {
        line
    }
}

fn solid_line(list: &Vec<String>) -> (r: String)
    ensures
        r@ == first_solid(texts(list@)),
{
    let ghost all = texts(list@);
    let mut i: usize = 0;
    assert(all.skip(0) =~= all);
    while i < list.len()
        invariant
            i <= list.len(),
            all == texts(list@),
            first_solid(all) == first_solid(all.skip(i as int)),
        decreases list.len() - i,
    {
        assert(all.skip(i as int)[0] == list@[i as int]@);
        assert(all.skip(i as int).drop_first() =~= all.skip(i + 1));
        if !is_blank(list[i].as_str()) {
            return str_trim(list[i].as_str());
        }
        i = i + 1;
    }
    assert(all.skip(i as int).len() == 0);
    String::new()
}

/// A failure in one line of bounded length.
pub fn failure_summary(message: &str) -> (r: String)
    ensures
        r@ == summary_of(message@),
        r@.len() <= SUMMARY_LIMIT,
{
    let v = chars_of(message);
    let list = split_lines(v.as_slice());
    let line = solid_line(&list);
    let c = chars_of(line.as_str());
    if c.len() > SUMMARY_LIMIT {
        assert(line@.subrange(0, SUMMARY_LIMIT as int) =~= line@.take(SUMMARY_LIMIT as int));
        string_of(part(c.as_slice(), 0, SUMMARY_LIMIT))
    } else {
        line
    }
}

/// What is said of a job.
pub open spec fn told(name: Seq<char>, success: bool, message: Seq<char>) -> Seq<char> {
    if !success {
        "⏰ "@ + name + " 執行失敗："@ + summary_of(message)
    } else if blank(message) {
        "⏰ "@ + name + "（無內容）"@
    } else {
        "⏰ "@ + name + "\n\n"@ + message
    }
}

/// What is said of a job.
pub fn result_text(name: &str, output: &ExecutionOutput) -> (r: String)
    ensures
        r@ == told(name@, output.success, output.message@),
{
    let mut s = String::from_str("⏰ ");
    s.append(name);
    if !output.success {
        s.append(" 執行失敗：");
        let summary = failure_summary(output.message.as_str());
        s.append(summary.as_str());
    } else if is_blank(output.message.as_str()) {
        s.append("（無內容）");
    } else {
        s.append("\n\n");
        s.append(output.message.as_str());
    }
    s
}

/// What a chat is told of a job, and how the history records it.
#[derive(Debug, Clone, PartialEq, Eq)]
pub struct Notice {
    pub chat_id: i64,
    pub scope: String,
    /// The messages are the chat's HTML; otherwise plain text, which nothing in an error can break.
    pub html: bool,
    pub messages: Vec<String>,
    pub content: String,
    pub status: String,
}

/// The job is a turn of a chat.
pub open spec fn chat_of_job(kind: JobKindView) -> Option<int> {
    match kind {
        JobKindView::Turn { scope, .. } => chat_of(scope),
        JobKindView::Maintenance { .. } => None,
    }
}

/// The messages of a notice: the rendered ones, or a placeholder where rendering leaves nothing.
pub open spec fn notice_messages(name: Seq<char>, success: bool, message: Seq<char>, rendered: Seq<Seq<char>>) -> Seq<Seq<char>> {
    if !success || blank(message) {
        seq![told(name, success, message)]
    } else if rendered.len() == 0 {
        seq!["⏰ "@ + name + "（無內容）"@]
    } else {
        rendered
    }
}

/// The notice of a job whose text was rendered into the given messages.
pub open spec fn is_notice(n: Notice, job: Job, output: ExecutionOutput, rendered: Seq<Seq<char>>) -> bool {
    &&& chat_of_job(job@.kind) == Some(n.chat_id as int)
    &&& (job@.kind matches JobKindView::Turn { scope, .. } && n.scope@ == scope)
    &&& n.html == (output.success && !blank(output.message@) && rendered.len() > 0)
    &&& texts(n.messages@) == notice_messages(job@.name, output.success, output.message@, rendered)
    &&& n.content@ == told(job@.name, output.success, output.message@)
    &&& n.status@ == (if output.success {
        "complete"@
    } else {
        "error"@
    })
}

/// The notice of a job whose text was rendered into the given messages. There is none where the
/// job is no turn of a chat.
pub fn notice_with(job: &Job, output: &ExecutionOutput, rendered: Vec<String>) -> (r: Option<Notice>)
    ensures
        match r {
            Some(n) => is_notice(n, *job, *output, texts(rendered@)),
            None => chat_of_job(job@.kind) is None,
        },
{
    if let JobKind::Turn { scope, .. } = &job.kind {
        if let Some(chat_id) = chat_id_from_scope(scope.as_str()) {
            let content = result_text(job.name.as_str(), output);
            let status = if output.success {
                "complete".to_owned()
            } else {
                "error".to_owned()
            };
            let solid = output.success && !is_blank(output.message.as_str());
            assert(texts(rendered@).len() == rendered@.len());
            let html = solid && rendered.len() > 0;
            let list = if html {
                rendered
            } else {
                let mut v: Vec<String> = Vec::new();
                if solid {
                    let mut s = String::from_str("⏰ ");
                    s.append(job.name.as_str());
                    s.append("（無內容）");
                    push_text(&mut v, s.as_str());
                    assert(texts(v@) =~= seq!["⏰ "@ + job@.name + "（無內容）"@]);
                } else {
                    push_text(&mut v, content.as_str());
                    assert(texts(v@) =~= seq![told(job@.name, output.success, output.message@)]);
                }
                v
            };
            return Some(
                Notice { chat_id, scope: scope.clone(), html, messages: list, content, status },
            );
        }
    }
    None
}

/// The messages of a text.
pub open spec fn rendered_text(text: Seq<char>) -> Seq<Seq<char>> {
    messages(text, parsed_marks(text))
}

/// What a chat is told of a job. There is nothing to tell where the job is no turn of a chat.
pub fn turn_notice(job: &Job, output: &ExecutionOutput) -> (r: Option<Notice>)
    ensures
        match r {
            Some(n) => is_notice(n, *job, *output, rendered_text(told(job@.name, output.success, output.message@))),
            None => chat_of_job(job@.kind) is None,
        },
{
    let text = result_text(job.name.as_str(), output);
    let rendered = to_telegram_html(text.as_str());
    notice_with(job, output, rendered)
}

/// Records in the history what the chat was told.
pub fn record_notice(history: &mut ChatHistoryStore, notice: &Notice, now: i64) -> (r: Result<i64, HistoryError>)
    requires
        old(history)@.wf(),
    ensures
        final(history)@.wf(),
        ({
            let id = thread_id_of(notice.scope@);
            let asked = HistoryView {
                threads: with_thread(old(history)@.threads, notice.scope@, now),
                ..old(history)@
            };
            match r {
                Err(e) => e == HistoryError::Full && old(history)@.last_message_id == i64::MAX && final(history)@ == asked,
                Ok(n) => n == old(history)@.last_message_id + 1 && final(history)@ == (HistoryView {
                    threads: touched(asked.threads, id, now),
                    messages: asked.messages.push(
                        MessageView {
                            id: n,
                            thread_id: id,
                            role: "assistant"@,
                            content: notice.content@,
                            content_html: Some(web_html(notice.content@)),
                            status: notice.status@,
                            created_at: now,
                        },
                    ),
                    last_message_id: n,
                    ..asked
                }),
            }
        }),
{
    let ghost before = history@;
    let thread = history.default_thread(notice.scope.as_str(), now);
    proof {
        scopes_have_their_own_threads(before.threads, notice.scope@, notice.scope@, now);
    }
    let html = to_web_html(notice.content.as_str());
    history.insert_message(
        thread.as_str(),
        "assistant",
        notice.content.as_str(),
        Some(html.as_str()),
        notice.status.as_str(),
        now,
    )
}

/// A notice always says something: no message list is empty, and a failure is one plain message.
pub proof fn notices_say_something(n: Notice, job: Job, output: ExecutionOutput, rendered: Seq<Seq<char>>)
    requires
        is_notice(n, job, output, rendered),
    ensures
        n.messages@.len() > 0,
        !output.success ==> !n.html && n.messages@.len() == 1,
{
    assert(texts(n.messages@).len() == n.messages@.len());
}

} // verus!
