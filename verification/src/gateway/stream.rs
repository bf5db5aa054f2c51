//! The agent's event stream: one JSON object per line, reduced to what is shown.
use crate::json::{either, opt_str, or_else, parse_json, parsed_json, Json, JsonView};
use crate::text::{opt_text, same, str_strip, str_trim, stripped, trimmed};
use vstd::prelude::*;

verus! {

/// The prefix of the request id of a permission request.
pub const PERMISSION_REQUEST_PREFIX: &'static str = "permission-";

/// The answer that allows a permission request once.
pub const PERMISSION_ALLOW_ONCE_LABEL: &'static str = "允許一次";

/// The answer that allows a permission request for the whole session.
pub const PERMISSION_ALLOW_ALWAYS_LABEL: &'static str = "本次工作階段總是允許";

/// The answer that rejects a permission request.
pub const PERMISSION_REJECT_LABEL: &'static str = "拒絕";

/// The word that answers a permission request for a chosen label: everything but an allowing label
/// rejects it.
pub open spec fn reply_to_label(label: Option<Seq<char>>) -> Seq<char> {
    if label == Some(PERMISSION_ALLOW_ONCE_LABEL@) {
        "once"@
    } else if label == Some(PERMISSION_ALLOW_ALWAYS_LABEL@) {
        "always"@
    } else {
        "reject"@
    }
}

/// The word that answers a permission request for the answers that were chosen, of which the first
/// counts.
pub fn permission_reply(answers: &Vec<Vec<String>>) -> (r: &'static str)
    ensures
        r@ == reply_to_label(
            if answers@.len() > 0 && answers@[0]@.len() > 0 {
                Some(answers@[0]@[0]@)
            } else {
                None
            },
        ),
{
    if answers.len() == 0 || answers[0].len() == 0 {
        return "reject";
    }
    let label = answers[0][0].as_str();
    if same(label, PERMISSION_ALLOW_ONCE_LABEL) {
        "once"
    } else if same(label, PERMISSION_ALLOW_ALWAYS_LABEL) {
        "always"
    } else {
        "reject"
    }
}

/// One choice of a question.
#[derive(Debug, Clone, PartialEq, Eq)]
pub struct QuestionOption {
    pub label: String,
    pub description: String,
}

/// A question of the agent.
#[derive(Debug, Clone, PartialEq, Eq)]
pub struct QuestionInfo {
    pub question: String,
    pub header: String,
    pub options: Vec<QuestionOption>,
    pub multiple: bool,
    pub custom: bool,
}

/// A request of the agent for answers.
#[derive(Debug, Clone, PartialEq, Eq)]
pub struct QuestionRequest {
    pub request_id: String,
    pub session_id: String,
    pub questions: Vec<QuestionInfo>,
}

/// One event of the agent that is shown.
#[derive(Debug, Clone, PartialEq, Eq)]
pub enum StreamEvent {
    /// A chunk of the agent's answer.
    Text(String),
    /// A chunk of the agent's reasoning.
    Reasoning(String),
    /// The use of a tool, by name.
    ToolUse(String),
    /// A request for answers.
    QuestionRequest(QuestionRequest),
    /// A step begins.
    StepStart,
    /// A step ends.
    StepFinish,
}

/// The mathematical form of a choice.
pub struct OptionView {
    pub label: Seq<char>,
    pub description: Seq<char>,
}

/// The mathematical form of a question.
pub struct QuestionView {
    pub question: Seq<char>,
    pub header: Seq<char>,
    pub options: Seq<OptionView>,
    pub multiple: bool,
    pub custom: bool,
}

/// The mathematical form of a request for answers.
pub struct RequestView {
    pub request_id: Seq<char>,
    pub session_id: Seq<char>,
    pub questions: Seq<QuestionView>,
}

/// The mathematical form of an event.
pub enum EventView {
    Text(Seq<char>),
    Reasoning(Seq<char>),
    ToolUse(Seq<char>),
    QuestionRequest(RequestView),
    StepStart,
    StepFinish,
}

impl View for QuestionOption {
    type V = OptionView;

    open spec fn view(&self) -> OptionView {
        OptionView { label: self.label@, description: self.description@ }
    }
}

/// The mathematical forms of a sequence of choices.
pub open spec fn options_of(v: Seq<QuestionOption>) -> Seq<OptionView> {
    v.map_values(|o: QuestionOption| o@)
}

impl View for QuestionInfo {
    type V = QuestionView;

    open spec fn view(&self) -> QuestionView {
        QuestionView {
            question: self.question@,
            header: self.header@,
            options: options_of(self.options@),
            multiple: self.multiple,
            custom: self.custom,
        }
    }
}

/// The mathematical forms of a sequence of questions.
pub open spec fn questions_of(v: Seq<QuestionInfo>) -> Seq<QuestionView> {
    v.map_values(|q: QuestionInfo| q@)
}

impl View for QuestionRequest {
    type V = RequestView;

    open spec fn view(&self) -> RequestView {
        RequestView {
            request_id: self.request_id@,
            session_id: self.session_id@,
            questions: questions_of(self.questions@),
        }
    }
}

impl View for StreamEvent {
    type V = EventView;

    open spec fn view(&self) -> EventView {
        match self {
            StreamEvent::Text(t) => EventView::Text(t@),
            StreamEvent::Reasoning(t) => EventView::Reasoning(t@),
            StreamEvent::ToolUse(t) => EventView::ToolUse(t@),
            StreamEvent::QuestionRequest(r) => EventView::QuestionRequest(r@),
            StreamEvent::StepStart => EventView::StepStart,
            StreamEvent::StepFinish => EventView::StepFinish,
        }
    }
}

/// The mathematical form of an optional event.
pub open spec fn opt_event(o: Option<StreamEvent>) -> Option<EventView> {
    match o {
        Some(e) => Some(e@),
        None => None,
    }
}

/// The mathematical forms of a sequence of events.
pub open spec fn events_of(v: Seq<StreamEvent>) -> Seq<EventView> {
    v.map_values(|e: StreamEvent| e@)
}

/// The permission id inside a request id.
pub open spec fn permission_of(request_id: Seq<char>) -> Option<Seq<char>> {
    stripped(request_id, PERMISSION_REQUEST_PREFIX@)
}

/// The permission id inside a request id, or `None` where the request is a plain question.
pub fn permission_id(request_id: &str) -> (r: Option<String>)
    ensures
        opt_text(r) == permission_of(request_id@),
{
    str_strip(request_id, PERMISSION_REQUEST_PREFIX)
}

/// The text of a member of the object itself or of its `part`.
pub open spec fn own_or_part(v: JsonView, key: Seq<char>) -> Option<Seq<char>> {
    either(
        v.str_at(key),
        match v.get("part"@) {
            Some(part) => part.str_at(key),
            None => None,
        },
    )
}

/// The event that a JSON object of the stream denotes.
pub open spec fn event_in(v: JsonView) -> Option<EventView> {
    match v.str_at("type"@) {
        None => None,
        Some(kind) => if kind == "text"@ {
            Some(EventView::Text(or_else(own_or_part(v, "text"@), Seq::empty())))
        } else if kind == "tool_use"@ {
            Some(
                EventView::ToolUse(
                    or_else(either(own_or_part(v, "name"@), own_or_part(v, "tool"@)), "tool"@),
                ),
            )
        } else if kind == "step_start"@ {
            Some(EventView::StepStart)
        } else if kind == "step_finish"@ {
            Some(EventView::StepFinish)
        } else {
            None
        },
    }
}

/// The event that a line of the stream denotes: none where the line is blank or no JSON.
pub open spec fn event_on(line: Seq<char>) -> Option<EventView> {
    if blank_line(line) {
        None
    } else {
        match parsed_json(trimmed(line)) {
            Some(v) => event_in(v),
            None => None,
        }
    }
}

/// A line with nothing but white space.
pub open spec fn blank_line(line: Seq<char>) -> bool {
    trimmed(line).len() == 0
}

/// The session id that a line of the stream carries.
pub open spec fn session_on(line: Seq<char>) -> Option<Seq<char>> {
    match parsed_json(trimmed(line)) {
        Some(v) => v.str_at("sessionID"@),
        None => None,
    }
}

fn text_in<'a>(v: &'a Json, key: &str) -> (r: Option<&'a str>)
    ensures
        opt_str(r) == own_or_part(v@, key@),
{
    match v.str_at(key) {
        Some(t) => Some(t),
        None => match v.get("part") {
            Some(part) => part.str_at(key),
            None => None,
        },
    }
}

/// The event that a JSON object of the stream denotes.
pub fn event_from_json(v: &Json) -> (r: Option<StreamEvent>)
    ensures
        opt_event(r) == event_in(v@),
{
    let kind = match v.str_at("type") {
        Some(k) => k,
        None => return None,
    };
    if same(kind, "text") {
        let text = match text_in(v, "text") {
            Some(t) => t.to_owned(),
            None => String::new(),
        };
        Some(StreamEvent::Text(text))
    } else if same(kind, "tool_use") {
        let name = match text_in(v, "name") {
            Some(n) => n.to_owned(),
            None => match text_in(v, "tool") {
                Some(n) => n.to_owned(),
                None => "tool".to_owned(),
            },
        };
        Some(StreamEvent::ToolUse(name))
    } else if same(kind, "step_start") {
        Some(StreamEvent::StepStart)
    } else if same(kind, "step_finish") {
        Some(StreamEvent::StepFinish)
    } else {
        None
    }
}

/// Parses one line of the stream. Lines that are malformed or not shown give `None`.
pub fn parse_event(line: &str) -> (r: Option<StreamEvent>)
    ensures
        opt_event(r) == event_on(line@),
{
    let kept = str_trim(line);
    if kept.as_str().is_empty() {
        return None;
    }
    match parse_json(kept.as_str()) {
        Some(v) => event_from_json(&v),
        None => None,
    }
}

/// The session id that a JSON object of the stream carries.
pub fn session_id_from_json(v: &Json) -> (r: Option<String>)
    ensures
        opt_text(r) == v@.str_at("sessionID"@),
{
    match v.str_at("sessionID") {
        Some(id) => Some(id.to_owned()),
        None => None,
    }
}

/// The session id that a line of the stream carries.
pub fn parse_session_id(line: &str) -> (r: Option<String>)
    ensures
        opt_text(r) == session_on(line@),
{
    let kept = str_trim(line);
    match parse_json(kept.as_str()) {
        Some(v) => session_id_from_json(&v),
        None => None,
    }
}

} // verus!
