//! The agent server: its settings, the messages sent to it, its replies, and the course of a turn.
use crate::gateway::backend::{AgentResponse, ResponseView};
use crate::gateway::error::GatewayError;
use crate::json::{opt_str, or_else, parse_text, read_json, views, Json, JsonView};
use crate::text::{
    ascii_lowered, blank, chars_of, clone_opt, is_blank, join, joined, opt_text, part, push_text,
    same, str_ascii_lower, str_trim, string_of, texts, trimmed,
};
use vstd::prelude::*;

verus! {

/// The largest attachment sent inside a message, in bytes.
pub const INLINE_ATTACHMENT_MAX_BYTES: u64 = 10485760;

// ---------------------------------------------------------------------------
// Settings
// ---------------------------------------------------------------------------

/// How attachments reach the server.
#[derive(Debug, Clone, PartialEq, Eq)]
pub enum FileTransportMode {
    /// By address, in a directory that both sides see.
    Shared,
    /// Inside the message.
    Inline,
    /// Not at all.
    Disabled,
    /// The configured word means nothing.
    Invalid(String),
}

/// The mathematical form of a transport mode.
pub enum ModeView {
    Shared,
    Inline,
    Disabled,
    Invalid(Seq<char>),
}

impl View for FileTransportMode {
    type V = ModeView;

    open spec fn view(&self) -> ModeView {
        match self {
            FileTransportMode::Shared => ModeView::Shared,
            FileTransportMode::Inline => ModeView::Inline,
            FileTransportMode::Disabled => ModeView::Disabled,
            FileTransportMode::Invalid(s) => ModeView::Invalid(s@),
        }
    }
}

/// The mode that a configured word denotes; shared where there is none.
pub open spec fn mode_of(value: Option<Seq<char>>) -> ModeView {
    match value {
        None => ModeView::Shared,
        Some(v) => {
            let word = ascii_lowered(trimmed(v));
            if word.len() == 0 || word == "shared"@ {
                ModeView::Shared
            } else if word == "inline"@ {
                ModeView::Inline
            } else if word == "disabled"@ {
                ModeView::Disabled
            } else {
                ModeView::Invalid(v)
            }
        },
    }
}

impl FileTransportMode {
    /// The mode that a configured word denotes.
    pub fn from_value(value: Option<&str>) -> (r: FileTransportMode)
        ensures
            r@ == mode_of(opt_str(value)),
    {
        match value {
            None => FileTransportMode::Shared,
            Some(v) => {
                let kept = str_trim(v);
                let word = str_ascii_lower(kept.as_str());
                if word.as_str().is_empty() || same(word.as_str(), "shared") {
                    FileTransportMode::Shared
                } else if same(word.as_str(), "inline") {
                    FileTransportMode::Inline
                } else if same(word.as_str(), "disabled") {
                    FileTransportMode::Disabled
                } else {
                    FileTransportMode::Invalid(v.to_owned())
                }
            },
        }
    }
}

/// How the server is reached and where its files are.
#[derive(Debug, Clone, PartialEq, Eq)]
pub struct OpencodeServerBackend {
    pub base_url: String,
    pub workspace: Option<String>,
    pub file_mode: FileTransportMode,
    pub server_workspace: Option<String>,
    pub username: Option<String>,
    pub password: Option<String>,
}

/// The text without slashes at its end.
pub open spec fn slashless(s: Seq<char>) -> Seq<char>
    decreases s.len(),
{
    if s.len() > 0 && s.last() == '/' {
        slashless(s.drop_last())
    } else {
        s
    }
}

/// A setting that counts only where it is not empty.
pub open spec fn if_filled(o: Option<Seq<char>>) -> Option<Seq<char>> {
    match o {
        Some(s) => if s.len() > 0 {
            o
        } else {
            None
        },
        None => None,
    }
}

/// A setting that counts only where it is not blank.
pub open spec fn if_not_blank(o: Option<Seq<char>>) -> Option<Seq<char>> {
    match o {
        Some(s) => if blank(s) {
            None
        } else {
            o
        },
        None => None,
    }
}

fn cut_slashes(s: &str) -> (r: String)
    ensures
        r@ == slashless(s@),
{
    let v = chars_of(s);
    let mut n: usize = v.len();
    assert(v@.take(n as int) =~= v@);
    while n > 0 && v[n - 1] == '/'
        invariant
            n <= v.len(),
            slashless(v@) == slashless(v@.take(n as int)),
        decreases n,
    {
        assert(v@.take(n as int).drop_last() =~= v@.take(n - 1));
        n = n - 1;
    }
    assert(v@.subrange(0, n as int) =~= v@.take(n as int));
    string_of(part(v.as_slice(), 0, n))
}

fn keep_filled(o: Option<String>) -> (r: Option<String>)
    ensures
        opt_text(r) == if_filled(opt_text(o)),
{
    match o {
        Some(s) => if s.as_str().is_empty() {
            None
        } else {
            Some(s)
        },
        None => None,
    }
}

impl OpencodeServerBackend {
    /// The settings for a server, by the configured texts: an address without slashes at its end;
    /// the server's own directory, or the local one where none is configured; and credentials.
    pub fn from_values(
        base_url: &str,
        workspace: Option<String>,
        file_mode: Option<&str>,
        server_workspace: Option<String>,
        username: Option<String>,
        password: Option<String>,
    ) -> (r: OpencodeServerBackend)
        ensures
            r.base_url@ == slashless(base_url@),
            opt_text(r.workspace) == opt_text(workspace),
            r.file_mode@ == mode_of(opt_str(file_mode)),
            opt_text(r.server_workspace) == (match if_not_blank(opt_text(server_workspace)) {
                Some(s) => Some(s),
                None => opt_text(workspace),
            }),
            opt_text(r.username) == if_filled(opt_text(username)),
            opt_text(r.password) == if_filled(opt_text(password)),
    {
        let own = match server_workspace {
            Some(s) => if is_blank(s.as_str()) {
                clone_opt(&workspace)
            } else {
                Some(s)
            },
            None => clone_opt(&workspace),
        };
        OpencodeServerBackend {
            base_url: cut_slashes(base_url),
            workspace,
            file_mode: FileTransportMode::from_value(file_mode),
            server_workspace: own,
            username: keep_filled(username),
            password: keep_filled(password),
        }
    }

    /// The name that goes with the password, where there is a password at all.
    pub fn credentials(&self) -> (r: Option<(String, String)>)
        ensures
            match r {
                Some(c) => opt_text(self.password) == Some(c.1@) && c.0@ == or_else(
                    opt_text(self.username),
                    "opencode"@,
                ),
                None => self.password is None,
            },
    {
        match &self.password {
            Some(p) => {
                let name = match &self.username {
                    Some(u) => u.clone(),
                    None => "opencode".to_owned(),
                };
                Some((name, p.clone()))
            },
            None => None,
        }
    }
}

// ---------------------------------------------------------------------------
// Addresses
// ---------------------------------------------------------------------------

/// Where a question is answered.
pub open spec fn question_address(base: Seq<char>, session: Seq<char>, request: Seq<char>, verb: Seq<char>) -> Seq<char> {
    base + "/api/session/"@ + session + "/question/"@ + request + verb
}

/// Where a question is answered.
pub fn question_reply_url(base_url: &str, session_id: &str, request_id: &str) -> (r: String)
    ensures
        r@ == question_address(base_url@, session_id@, request_id@, "/reply"@),
{
    let mut r = String::from_str(base_url);
    r.append("/api/session/");
    r.append(session_id);
    r.append("/question/");
    r.append(request_id);
    r.append("/reply");
    r
}

/// Where a question is rejected.
pub fn question_reject_url(base_url: &str, session_id: &str, request_id: &str) -> (r: String)
    ensures
        r@ == question_address(base_url@, session_id@, request_id@, "/reject"@),
{
    let mut r = String::from_str(base_url);
    r.append("/api/session/");
    r.append(session_id);
    r.append("/question/");
    r.append(request_id);
    r.append("/reject");
    r
}

/// Where a permission request is answered.
pub fn permission_reply_url(base_url: &str, request_id: &str) -> (r: String)
    ensures
        r@ == base_url@ + "/permission/"@ + request_id@ + "/reply"@,
{
    let mut r = String::from_str(base_url);
    r.append("/permission/");
    r.append(request_id);
    r.append("/reply");
    r
}

/// An address below the server's.
pub fn server_url(base_url: &str, path: &str) -> (r: String)
    ensures
        r@ == base_url@ + path@,
{
    let mut r = String::from_str(base_url);
    r.append(path);
    r
}

/// An address of a session.
pub fn session_url(base_url: &str, session_id: &str, verb: &str) -> (r: String)
    ensures
        r@ == base_url@ + "/session/"@ + session_id@ + verb@,
{
    let mut r = String::from_str(base_url);
    r.append("/session/");
    r.append(session_id);
    r.append(verb);
    r
}

// ---------------------------------------------------------------------------
// Errors
// ---------------------------------------------------------------------------

/// A failure of the agent without an exit code.
pub open spec fn failed_with(e: GatewayError, text: Seq<char>) -> bool {
    e matches GatewayError::AgentFailed { code, stderr } && code is None && stderr@ == text
}

/// A failure of the agent without an exit code.
pub fn attachment_error(message: String) -> (r: GatewayError)
    ensures
        failed_with(r, message@),
{
    GatewayError::AgentFailed { code: None, stderr: message }
}

/// The failure of a request that got no reply.
pub fn http_error(phase: &str, err: &str) -> (r: GatewayError)
    ensures
        failed_with(r, "opencode server "@ + phase@ + " failed: "@ + err@),
{
    let mut text = String::from_str("opencode server ");
    text.append(phase);
    text.append(" failed: ");
    text.append(err);
    attachment_error(text)
}

/// A status that means success.
pub open spec fn is_success(status: u16) -> bool {
    200 <= status < 300
}

/// The failure that a reply with a bad status means.
pub open spec fn refused_with(e: GatewayError, phase: Seq<char>, status: u16, shown: Seq<char>, body: Seq<char>) -> bool {
    e matches GatewayError::AgentFailed { code, stderr } && code == Some(status as i32) && stderr@
        == "opencode server "@ + phase + " returned "@ + shown + ": "@ + body
}

/// What a reply without content means: success, or the failure that its status means.
pub fn read_empty_reply(phase: &str, status: u16, shown_status: &str, body: &str) -> (r: Result<
    (),
    GatewayError,
>)
    ensures
        match r {
            Ok(_) => is_success(status),
            Err(e) => !is_success(status) && refused_with(e, phase@, status, shown_status@, body@),
        },
{
    if 200 <= status && status < 300 {
        return Ok(());
    }
    let mut text = String::from_str("opencode server ");
    text.append(phase);
    text.append(" returned ");
    text.append(shown_status);
    text.append(": ");
    text.append(body);
    Err(GatewayError::AgentFailed { code: Some(status as i32), stderr: text })
}

/// What a reply with JSON content means: the value, or the failure that its status or its content
/// means.
pub fn read_reply(phase: &str, status: u16, shown_status: &str, body: &str) -> (r: Result<
    Json,
    GatewayError,
>)
    ensures
        match r {
            Ok(j) => is_success(status) && read_json(body@) == Ok::<JsonView, Seq<char>>(j@),
            Err(e) => if !is_success(status) {
                refused_with(e, phase@, status, shown_status@, body@)
            } else {
                read_json(body@) matches Err(err) && failed_with(
                    e,
                    "opencode server "@ + phase@ + " returned invalid JSON: "@ + err + "; body: "@ + body@,
                )
            },
        },
{
    match read_empty_reply(phase, status, shown_status, body) {
        Ok(_) => {},
        Err(e) => return Err(e),
    }
    match parse_text(body) {
        Ok(j) => Ok(j),
        Err(err) => {
            let mut text = String::from_str("opencode server ");
            text.append(phase);
            text.append(" returned invalid JSON: ");
            text.append(err.as_str());
            text.append("; body: ");
            text.append(body);
            Err(attachment_error(text))
        },
    }
}

/// The text that `serde_json::Value` shows for a JSON text.
pub uninterp spec fn compact_json(text: Seq<char>) -> Seq<char>;

/// Parses the text with `serde_json::from_str` and calls `to_string` on the value, or on the
/// error where there is no value. The outcome depends on the text alone.
#[verifier::external_body]
fn compacted(text: &str) -> (r: String)
    ensures
        r@ == compact_json(text@),
{
    match serde_json::from_str::<serde_json::Value>(text) {
        Ok(v) => v.to_string(),
        Err(e) => e.to_string(),
    }
}

/// The id of a new session.
pub fn extract_session_id(value: &Json) -> (r: Option<String>)
    ensures
        opt_text(r) == value@.str_at("id"@),
{
    match value.str_at("id") {
        Some(id) => Some(id.to_owned()),
        None => None,
    }
}

/// The id of a new session in the reply `body`, whose value is `value`.
pub fn created_session(value: &Json, body: &str) -> (r: Result<String, GatewayError>)
    ensures
        match r {
            Ok(id) => value@.str_at("id"@) == Some(id@),
            Err(e) => value@.str_at("id"@) is None && failed_with(
                e,
                "opencode server did not return a session id: "@ + compact_json(body@),
            ),
        },
{
    match extract_session_id(value) {
        Some(id) => Ok(id),
        None => {
            let mut text = String::from_str("opencode server did not return a session id: ");
            let shown = compacted(body);
            text.append(shown.as_str());
            Err(attachment_error(text))
        },
    }
}

// ---------------------------------------------------------------------------
// Text in replies
// ---------------------------------------------------------------------------

/// The text of a part of an answer, where it is not blank.
pub open spec fn own_text(v: JsonView) -> Seq<Seq<char>> {
    let kind = v.str_at("type"@);
    if (kind == Some("text"@) || kind == Some("assistant_text"@)) && (v.str_at("text"@) matches Some(
        t,
    ) && !blank(t)) {
        seq![v.str_at("text"@)->0]
    } else {
        Seq::empty()
    }
}

/// All texts of parts anywhere inside a value, outer ones first.
pub open spec fn texts_in(v: JsonView) -> Seq<Seq<char>>
    decreases v,
{
    match v {
        JsonView::Object(o) => own_text(v) + texts_in_members(o),
        JsonView::Array(a) => texts_in_items(a),
        _ => Seq::empty(),
    }
}

/// All texts of parts inside the values of an object.
pub open spec fn texts_in_members(o: Seq<(Seq<char>, JsonView)>) -> Seq<Seq<char>>
    decreases o,
{
    if o.len() == 0 {
        Seq::empty()
    } else {
        texts_in_members(o.drop_last()) + texts_in(o.last().1)
    }
}

/// All texts of parts inside the items of an array.
pub open spec fn texts_in_items(a: Seq<JsonView>) -> Seq<Seq<char>>
    decreases a,
{
    if a.len() == 0 {
        Seq::empty()
    } else {
        texts_in_items(a.drop_last()) + texts_in(a.last())
    }
}

fn push_own(value: &Json, out: &mut Vec<String>)
    ensures
        texts(final(out)@) == texts(old(out)@) + own_text(value@),
{
    let ghost before = texts(out@);
    let is_text = match value.str_at("type") {
        Some(kind) => same(kind, "text") || same(kind, "assistant_text"),
        None => false,
    };
    if is_text {
        if let Some(text) = value.str_at("text") {
            if !is_blank(text) {
                push_text(out, text);
            }
        }
    }
    assert(texts(out@) =~= before + own_text(value@));
}

/// Collects the texts of parts anywhere inside a value.
pub fn collect_text(value: &Json, out: &mut Vec<String>)
    ensures
        texts(final(out)@) == texts(old(out)@) + texts_in(value@),
    decreases value,
{
    let ghost start = texts(out@);
    match value {
        Json::Object(members) => {
            push_own(value, out);
            let ghost before = texts(out@);
            let ghost all = value@->Object_0;
            let mut i: usize = 0;
            assert(before =~= before + texts_in_members(all.take(0)));
            while i < members.len()
                invariant
                    i <= members.len(),
                    all.len() == members@.len(),
                    forall|k: int| 0 <= k < all.len() ==> (#[trigger] all[k]).1 == members@[k].1@,
                    texts(out@) == before + texts_in_members(all.take(i as int)),
                    value matches Json::Object(m) && m@ == members@,
                decreases members.len() - i,
            {
                collect_text(&members[i].1, out);
                i = i + 1;
                assert(all.take(i as int).drop_last() =~= all.take(i - 1));
                assert(all.take(i as int).last() == all[i - 1]);
                assert(texts(out@) =~= before + texts_in_members(all.take(i as int)));
            }
            assert(all.take(i as int) =~= all);
            assert(texts(out@) =~= start + texts_in(value@));
        },
        Json::Array(items) => {
            let ghost all = value@->Array_0;
            let mut i: usize = 0;
            assert(start =~= start + texts_in_items(all.take(0)));
            while i < items.len()
                invariant
                    i <= items.len(),
                    all.len() == items@.len(),
                    forall|k: int| 0 <= k < all.len() ==> #[trigger] all[k] == items@[k]@,
                    texts(out@) == start + texts_in_items(all.take(i as int)),
                    value matches Json::Array(m) && m@ == items@,
                decreases items.len() - i,
            {
                collect_text(&items[i], out);
                i = i + 1;
                assert(all.take(i as int).drop_last() =~= all.take(i - 1));
                assert(all.take(i as int).last() == all[i - 1]);
                assert(texts(out@) =~= start + texts_in_items(all.take(i as int)));
            }
            assert(all.take(i as int) =~= all);
        },
        _ => {
            assert(texts(out@) =~= start + texts_in(value@));
        },
    }
}

/// The texts of parts anywhere inside a value, one per line.
pub fn extract_text(value: &Json) -> (r: String)
    ensures
        r@ == joined(texts_in(value@), "\n"@),
{
    let mut out: Vec<String> = Vec::new();
    assert(texts(out@) =~= Seq::empty());
    collect_text(value, &mut out);
    assert(texts(out@) =~= texts_in(value@));
    join(&out, "\n")
}

/// A message that the assistant wrote.
pub open spec fn by_assistant(message: JsonView) -> bool {
    match message.get("info"@) {
        Some(info) => info.str_at("role"@) == Some("assistant"@),
        None => false,
    }
}

/// The trimmed text of the last message that the assistant wrote; empty where there is none.
pub open spec fn last_answer(messages: Seq<JsonView>) -> Seq<char>
    decreases messages.len(),
{
    if messages.len() == 0 {
        Seq::empty()
    } else if by_assistant(messages.last()) {
        trimmed(joined(texts_in(messages.last()), "\n"@))
    } else {
        last_answer(messages.drop_last())
    }
}

fn is_by_assistant(message: &Json) -> (r: bool)
    ensures
        r == by_assistant(message@),
{
    match message.get("info") {
        Some(info) => match info.str_at("role") {
            Some(role) => same(role, "assistant"),
            None => false,
        },
        None => false,
    }
}

/// The text of the last message that the assistant wrote.
pub fn extract_latest_assistant_text(value: &Json) -> (r: String)
    ensures
        r@ == (match value@.as_array() {
            Some(messages) => last_answer(messages),
            None => Seq::empty(),
        }),
{
    let messages = match value.as_array() {
        Some(m) => m,
        None => return String::new(),
    };
    let ghost all = views(messages@);
    let mut n: usize = messages.len();
    assert(all.take(n as int) =~= all);
    while n > 0
        invariant
            n <= messages.len(),
            all == views(messages@),
            value@.as_array() == Some(all),
            last_answer(all) == last_answer(all.take(n as int)),
        decreases n,
    {
        let ghost now = all.take(n as int);
        assert(now.drop_last() =~= all.take(n - 1));
        assert(now.last() == messages@[n - 1]@);
        if is_by_assistant(&messages[n - 1]) {
            let text = extract_text(&messages[n - 1]);
            return str_trim(text.as_str());
        }
        n = n - 1;
    }
    String::new()
}

/// The answer in the reply to a message.
pub fn answer_of(value: &Json, session_id: String) -> (r: AgentResponse)
    ensures
        r@ == (ResponseView {
            text: trimmed(joined(texts_in(value@), "\n"@)),
            session_id: Some(session_id@),
        }),
{
    let text = extract_text(value);
    AgentResponse { text: str_trim(text.as_str()), session_id: Some(session_id) }
}

} // verus!
