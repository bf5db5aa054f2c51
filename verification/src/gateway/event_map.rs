//! The agent server's events, reduced to what is shown of one session.
use crate::gateway::stream::{
    options_of, questions_of, EventView, OptionView, QuestionInfo, QuestionOption, QuestionRequest,
    QuestionView, RequestView, StreamEvent, PERMISSION_ALLOW_ALWAYS_LABEL,
    PERMISSION_ALLOW_ONCE_LABEL, PERMISSION_REJECT_LABEL, PERMISSION_REQUEST_PREFIX,
};
use crate::json::{either, opt_str, opt_view, or_else, views, Json, JsonView};
use crate::text::{
    blank, chars_of, decimal, decimal_of, is_blank, join, joined, opt_text, part, same, string_of, texts,
};
use vstd::prelude::*;

verus! {

// ---------------------------------------------------------------------------
// Shortening
// ---------------------------------------------------------------------------

/// A text of at most 120 characters: the text itself, or its first 117 and three dots.
pub open spec fn shortened(s: Seq<char>) -> Seq<char> {
    if s.len() > 120 {
        s.take(117) + "..."@
    } else {
        s
    }
}

/// A shortened text has at most 120 characters.
pub proof fn shortened_is_short(s: Seq<char>)
    ensures
        shortened(s).len() <= 120,
{
    reveal_strlit("...");
}

/// Shortens a text that is shown of a tool.
pub fn truncate_tool_value(value: &str) -> (r: String)
    ensures
        r@ == shortened(value@),
{
    let v = chars_of(value);
    if v.len() > 120 {
        let mut r = string_of(part(v.as_slice(), 0, 117));
        r.append("...");
        assert(v@.subrange(0, 117) =~= v@.take(117));
        r
    } else {
        string_of(v.as_slice())
    }
}

// ---------------------------------------------------------------------------
// Tools
// ---------------------------------------------------------------------------

/// A text that is there and not empty.
pub open spec fn filled(o: Option<Seq<char>>) -> bool {
    o matches Some(s) && s.len() > 0
}

/// The line for a field of a tool's input, if the field holds text.
pub open spec fn field_line(input: JsonView, field: Seq<char>) -> Seq<Seq<char>> {
    if filled(input.str_at(field)) {
        seq!["  "@ + field + ": "@ + shortened(input.str_at(field)->0)]
    } else {
        Seq::empty()
    }
}

/// The lines for the fields of a tool's input that are shown.
pub open spec fn input_lines(input: JsonView, name: Seq<char>) -> Seq<Seq<char>> {
    if name == "bash"@ {
        field_line(input, "command"@)
    } else if name == "read"@ {
        field_line(input, "filePath"@)
    } else if name == "grep"@ {
        field_line(input, "pattern"@) + field_line(input, "path"@) + field_line(input, "include"@)
    } else if name == "glob"@ {
        field_line(input, "pattern"@) + field_line(input, "path"@)
    } else {
        Seq::empty()
    }
}

/// The input of a tool.
pub open spec fn tool_input(part: JsonView) -> Option<JsonView> {
    match part.get("state"@) {
        Some(state) => state.get("input"@),
        None => None,
    }
}

/// The line for a question: its header, where it has one, and its prompt.
pub open spec fn prompt_line(q: JsonView) -> Seq<Seq<char>> {
    let prompt = q.str_at("question"@);
    let header = q.str_at("header"@);
    if filled(header) && filled(prompt) {
        seq!["  "@ + header->0 + ": "@ + shortened(prompt->0)]
    } else if filled(prompt) {
        seq!["  "@ + shortened(prompt->0)]
    } else {
        Seq::empty()
    }
}

/// The line for the choice with the given number, if it has a label.
pub open spec fn option_line(o: JsonView, number: nat) -> Seq<Seq<char>> {
    let label = or_else(o.str_at("label"@), Seq::empty());
    let description = or_else(o.str_at("description"@), Seq::empty());
    if label.len() == 0 {
        Seq::empty()
    } else if description.len() == 0 {
        seq!["  "@ + decimal(number) + ". "@ + shortened(label)]
    } else {
        seq!["  "@ + decimal(number) + ". "@ + shortened(label) + " - "@ + shortened(description)]
    }
}

/// The lines for the choices, numbered from one on.
pub open spec fn option_lines(items: Seq<JsonView>) -> Seq<Seq<char>>
    decreases items.len(),
{
    if items.len() == 0 {
        Seq::empty()
    } else {
        option_lines(items.drop_last()) + option_line(items.last(), items.len())
    }
}

/// The lines for a question and its choices.
pub open spec fn question_lines(q: JsonView) -> Seq<Seq<char>> {
    prompt_line(q) + match q.array_at("options"@) {
        Some(items) => option_lines(items),
        None => Seq::empty(),
    }
}

/// The lines for several questions.
pub open spec fn all_question_lines(items: Seq<JsonView>) -> Seq<Seq<char>>
    decreases items.len(),
{
    if items.len() == 0 {
        Seq::empty()
    } else {
        all_question_lines(items.drop_last()) + question_lines(items.last())
    }
}

/// The lines shown below a tool's name.
pub open spec fn tool_lines(part: JsonView, name: Seq<char>) -> Seq<Seq<char>> {
    match tool_input(part) {
        None => Seq::empty(),
        Some(input) => if name == "question"@ {
            match input.array_at("questions"@) {
                Some(items) => all_question_lines(items),
                None => Seq::empty(),
            }
        } else {
            input_lines(input, name)
        },
    }
}

/// What is shown of the use of a tool: its name, and a line for each thing worth knowing.
pub open spec fn tool_text(part: JsonView, name: Seq<char>) -> Seq<char> {
    joined(seq![name] + tool_lines(part, name), "\n"@)
}

fn is_filled(o: Option<&str>) -> (r: bool)
    ensures
        r == filled(opt_str(o)),
{
    match o {
        Some(s) => !s.is_empty(),
        None => false,
    }
}

fn push_field(lines: &mut Vec<String>, input: &Json, field: &str)
    ensures
        texts(final(lines)@) == texts(old(lines)@) + field_line(input@, field@),
{
    let ghost before = lines@;
    if let Some(value) = input.str_at(field) {
        if !value.is_empty() {
            let mut line = String::from_str("  ");
            line.append(field);
            line.append(": ");
            let short = truncate_tool_value(value);
            line.append(short.as_str());
            lines.push(line);
            assert(texts(lines@) =~= texts(before) + field_line(input@, field@));
            return;
        }
    }
    assert(texts(lines@) =~= texts(before) + field_line(input@, field@));
}

fn push_prompt(lines: &mut Vec<String>, q: &Json)
    ensures
        texts(final(lines)@) == texts(old(lines)@) + prompt_line(q@),
{
    let ghost before = lines@;
    let prompt = q.str_at("question");
    let header = q.str_at("header");
    if !is_filled(prompt) {
        assert(texts(lines@) =~= texts(before) + prompt_line(q@));
        return;
    }
    let short = truncate_tool_value(prompt.unwrap());
    let mut line = String::from_str("  ");
    if is_filled(header) {
        line.append(header.unwrap());
        line.append(": ");
    }
    line.append(short.as_str());
    lines.push(line);
    assert(texts(lines@) =~= texts(before) + prompt_line(q@));
}

fn push_option(lines: &mut Vec<String>, o: &Json, number: u64)
    ensures
        texts(final(lines)@) == texts(old(lines)@) + option_line(o@, number as nat),
{
    let ghost before = lines@;
    let label = match o.str_at("label") {
        Some(s) => s.to_owned(),
        None => String::new(),
    };
    if label.as_str().is_empty() {
        assert(texts(lines@) =~= texts(before) + option_line(o@, number as nat));
        return;
    }
    let description = match o.str_at("description") {
        Some(s) => s.to_owned(),
        None => String::new(),
    };
    let mut line = String::from_str("  ");
    let digits = decimal_of(number);
    line.append(digits.as_str());
    line.append(". ");
    let short = truncate_tool_value(label.as_str());
    line.append(short.as_str());
    if !description.as_str().is_empty() {
        line.append(" - ");
        let more = truncate_tool_value(description.as_str());
        line.append(more.as_str());
    }
    lines.push(line);
    assert(texts(lines@) =~= texts(before) + option_line(o@, number as nat));
}

fn push_question(lines: &mut Vec<String>, q: &Json)
    ensures
        texts(final(lines)@) == texts(old(lines)@) + question_lines(q@),
{
    let ghost start = texts(lines@);
    push_prompt(lines, q);
    let ghost before = texts(lines@);
    if let Some(items) = q.array_at("options") {
        let ghost all = views(items@);
        let mut i: usize = 0;
        assert(before =~= before + option_lines(all.take(0)));
        while i < items.len()
            invariant
                i <= items.len(),
                all == views(items@),
                texts(lines@) == before + option_lines(all.take(i as int)),
            decreases items.len() - i,
        {
            push_option(lines, &items[i], i as u64 + 1);
            i = i + 1;
            assert(all.take(i as int).drop_last() =~= all.take(i - 1));
            assert(texts(lines@) =~= before + option_lines(all.take(i as int)));
        }
        assert(all.take(i as int) =~= all);
    } else {
        assert(before =~= before + Seq::<Seq<char>>::empty());
    }
    assert(texts(lines@) =~= start + question_lines(q@));
}

fn push_questions(lines: &mut Vec<String>, items: &Vec<Json>)
    ensures
        texts(final(lines)@) == texts(old(lines)@) + all_question_lines(views(items@)),
{
    let ghost before = texts(lines@);
    let ghost all = views(items@);
    let mut i: usize = 0;
    assert(before =~= before + all_question_lines(all.take(0)));
    while i < items.len()
        invariant
            i <= items.len(),
            all == views(items@),
            texts(lines@) == before + all_question_lines(all.take(i as int)),
        decreases items.len() - i,
    {
        push_question(lines, &items[i]);
        i = i + 1;
        assert(all.take(i as int).drop_last() =~= all.take(i - 1));
        assert(texts(lines@) =~= before + all_question_lines(all.take(i as int)));
    }
    assert(all.take(i as int) =~= all);
}

fn input_of<'a>(part: &'a Json) -> (r: Option<&'a Json>)
    ensures
        opt_view(r) == tool_input(part@),
{
    match part.get("state") {
        Some(state) => state.get("input"),
        None => None,
    }
}

/// What is shown of the use of a tool.
pub fn format_tool_use_name(part: &Json, name: &str) -> (r: String)
    ensures
        r@ == tool_text(part@, name@),
{
    let mut lines: Vec<String> = Vec::new();
    lines.push(name.to_owned());
    assert(texts(lines@) =~= seq![name@]);
    if let Some(input) = input_of(part) {
        if same(name, "question") {
            if let Some(items) = input.array_at("questions") {
                push_questions(&mut lines, items);
            }
        } else if same(name, "bash") {
            push_field(&mut lines, input, "command");
        } else if same(name, "read") {
            push_field(&mut lines, input, "filePath");
        } else if same(name, "grep") {
            push_field(&mut lines, input, "pattern");
            push_field(&mut lines, input, "path");
            push_field(&mut lines, input, "include");
        } else if same(name, "glob") {
            push_field(&mut lines, input, "pattern");
            push_field(&mut lines, input, "path");
        }
    }
    assert(texts(lines@) =~= seq![name@] + tool_lines(part@, name@));
    join(&lines, "\n")
}

// ---------------------------------------------------------------------------
// Questions
// ---------------------------------------------------------------------------

/// The choices with a label, in order.
pub open spec fn labelled(items: Seq<JsonView>) -> Seq<OptionView>
    decreases items.len(),
{
    if items.len() == 0 {
        Seq::empty()
    } else {
        let before = labelled(items.drop_last());
        match items.last().str_at("label"@) {
            Some(label) => before.push(
                OptionView {
                    label,
                    description: or_else(items.last().str_at("description"@), Seq::empty()),
                },
            ),
            None => before,
        }
    }
}

/// The question that a JSON object denotes; none where it has no prompt.
pub open spec fn question_in(v: JsonView) -> Option<QuestionView> {
    match v.str_at("question"@) {
        None => None,
        Some(question) => Some(
            QuestionView {
                question,
                header: or_else(v.str_at("header"@), Seq::empty()),
                options: match v.array_at("options"@) {
                    Some(items) => labelled(items),
                    None => Seq::empty(),
                },
                multiple: or_else(v.bool_at("multiple"@), false),
                custom: or_else(v.bool_at("custom"@), true),
            },
        ),
    }
}

/// The questions among several JSON objects, in order.
pub open spec fn questions_in(items: Seq<JsonView>) -> Seq<QuestionView>
    decreases items.len(),
{
    if items.len() == 0 {
        Seq::empty()
    } else {
        let before = questions_in(items.drop_last());
        match question_in(items.last()) {
            Some(q) => before.push(q),
            None => before,
        }
    }
}

/// The request for answers that a question event denotes: none without an id, a session, or any
/// question.
pub open spec fn question_request_in(v: JsonView) -> Option<RequestView> {
    match (v.str_at("id"@), v.str_at("sessionID"@), v.array_at("questions"@)) {
        (Some(request_id), Some(session_id), Some(items)) => if questions_in(items).len() == 0 {
            None
        } else {
            Some(RequestView { request_id, session_id, questions: questions_in(items) })
        },
        _ => None,
    }
}

/// The texts among the JSON values, shortened, at most five.
pub open spec fn patterns_in(items: Seq<JsonView>) -> Seq<Seq<char>>
    decreases items.len(),
{
    if items.len() == 0 {
        Seq::empty()
    } else {
        let before = patterns_in(items.drop_last());
        match items.last().as_str() {
            Some(s) => if before.len() < 5 {
                before.push(shortened(s))
            } else {
                before
            },
            None => before,
        }
    }
}

/// The prompt of a permission request.
pub open spec fn permission_prompt(permission: Seq<char>, patterns: Seq<Seq<char>>) -> Seq<char> {
    "OpenCode 要求執行權限："@ + permission + (if patterns.len() > 0 {
        "\n\n範圍：\n• "@ + joined(patterns, "\n• "@)
    } else {
        Seq::empty()
    })
}

/// The only question of a permission request.
pub open spec fn permission_question(prompt: Seq<char>) -> QuestionView {
    QuestionView {
        question: prompt,
        header: "🔐 權限確認"@,
        options: seq![
            OptionView { label: PERMISSION_ALLOW_ONCE_LABEL@, description: "只允許這次請求"@ },
            OptionView {
                label: PERMISSION_ALLOW_ALWAYS_LABEL@,
                description: "在目前 OpenCode session 記住相同規則"@,
            },
            OptionView { label: PERMISSION_REJECT_LABEL@, description: "拒絕執行"@ },
        ],
        multiple: false,
        custom: false,
    }
}

/// The request for answers that a permission event denotes.
pub open spec fn permission_request_in(v: JsonView) -> Option<RequestView> {
    let id = match either(v.get("id"@), v.get("requestID"@)) {
        Some(j) => j.as_str(),
        None => None,
    };
    match (id, v.str_at("sessionID"@)) {
        (Some(permission_id), Some(session_id)) => Some(
            RequestView {
                request_id: PERMISSION_REQUEST_PREFIX@ + permission_id,
                session_id,
                questions: seq![
                    permission_question(
                        permission_prompt(
                            or_else(v.str_at("permission"@), "tool"@),
                            match v.array_at("patterns"@) {
                                Some(items) => patterns_in(items),
                                None => Seq::empty(),
                            },
                        ),
                    ),
                ],
            },
        ),
        _ => None,
    }
}

/// The mathematical form of an optional request.
pub open spec fn opt_request(o: Option<QuestionRequest>) -> Option<RequestView> {
    match o {
        Some(r) => Some(r@),
        None => None,
    }
}

fn collect_options(items: &Vec<Json>) -> (r: Vec<QuestionOption>)
    ensures
        options_of(r@) == labelled(views(items@)),
{
    let ghost all = views(items@);
    let mut r: Vec<QuestionOption> = Vec::new();
    let mut i: usize = 0;
    assert(options_of(r@) =~= labelled(all.take(0)));
    while i < items.len()
        invariant
            i <= items.len(),
            all == views(items@),
            options_of(r@) == labelled(all.take(i as int)),
        decreases items.len() - i,
    {
        let ghost before = r@;
        assert(all.take(i + 1).drop_last() =~= all.take(i as int));
        if let Some(label) = items[i].str_at("label") {
            let description = match items[i].str_at("description") {
                Some(d) => d.to_owned(),
                None => String::new(),
            };
            let option = QuestionOption { label: label.to_owned(), description };
            r.push(option);
            assert(options_of(r@) =~= options_of(before).push(option@));
        }
        i = i + 1;
    }
    assert(all.take(i as int) =~= all);
    r
}

/// The question that a JSON object denotes.
pub fn parse_question_info(value: &Json) -> (r: Option<QuestionInfo>)
    ensures
        match r {
            Some(q) => question_in(value@) == Some(q@),
            None => question_in(value@) is None,
        },
{
    let question = match value.str_at("question") {
        Some(q) => q.to_owned(),
        None => return None,
    };
    let header = match value.str_at("header") {
        Some(h) => h.to_owned(),
        None => String::new(),
    };
    let multiple = match value.bool_at("multiple") {
        Some(b) => b,
        None => false,
    };
    let custom = match value.bool_at("custom") {
        Some(b) => b,
        None => true,
    };
    let options = match value.array_at("options") {
        Some(items) => collect_options(items),
        None => {
            let none: Vec<QuestionOption> = Vec::new();
            assert(options_of(none@) =~= Seq::empty());
            none
        },
    };
    Some(QuestionInfo { question, header, options, multiple, custom })
}

fn collect_questions(items: &Vec<Json>) -> (r: Vec<QuestionInfo>)
    ensures
        questions_of(r@) == questions_in(views(items@)),
{
    let ghost all = views(items@);
    let mut r: Vec<QuestionInfo> = Vec::new();
    let mut i: usize = 0;
    assert(questions_of(r@) =~= questions_in(all.take(0)));
    while i < items.len()
        invariant
            i <= items.len(),
            all == views(items@),
            questions_of(r@) == questions_in(all.take(i as int)),
        decreases items.len() - i,
    {
        let ghost before = r@;
        assert(all.take(i + 1).drop_last() =~= all.take(i as int));
        if let Some(q) = parse_question_info(&items[i]) {
            r.push(q);
            assert(questions_of(r@) =~= questions_of(before).push(q@));
        }
        i = i + 1;
    }
    assert(all.take(i as int) =~= all);
    r
}

/// The request for answers that a question event denotes.
pub fn parse_question_request(properties: &Json) -> (r: Option<QuestionRequest>)
    ensures
        opt_request(r) == question_request_in(properties@),
{
    let request_id = match properties.str_at("id") {
        Some(id) => id.to_owned(),
        None => return None,
    };
    let session_id = match properties.str_at("sessionID") {
        Some(id) => id.to_owned(),
        None => return None,
    };
    let questions = match properties.array_at("questions") {
        Some(items) => collect_questions(items),
        None => return None,
    };
    if questions.len() == 0 {
        return None;
    }
    Some(QuestionRequest { request_id, session_id, questions })
}

fn collect_patterns(items: &Vec<Json>) -> (r: Vec<String>)
    ensures
        texts(r@) == patterns_in(views(items@)),
{
    let ghost all = views(items@);
    let mut r: Vec<String> = Vec::new();
    let mut i: usize = 0;
    assert(texts(r@) =~= patterns_in(all.take(0)));
    while i < items.len()
        invariant
            i <= items.len(),
            all == views(items@),
            texts(r@) == patterns_in(all.take(i as int)),
        decreases items.len() - i,
    {
        let ghost before = r@;
        assert(all.take(i + 1).drop_last() =~= all.take(i as int));
        if let Some(s) = items[i].as_str() {
            if r.len() < 5 {
                r.push(truncate_tool_value(s));
                assert(texts(r@) =~= texts(before).push(shortened(s@)));
            }
        }
        i = i + 1;
    }
    assert(all.take(i as int) =~= all);
    r
}

fn permission_info(question: String) -> (r: QuestionInfo)
    ensures
        r@ == permission_question(question@),
{
    let mut options: Vec<QuestionOption> = Vec::new();
    options.push(
        QuestionOption {
            label: PERMISSION_ALLOW_ONCE_LABEL.to_owned(),
            description: "只允許這次請求".to_owned(),
        },
    );
    options.push(
        QuestionOption {
            label: PERMISSION_ALLOW_ALWAYS_LABEL.to_owned(),
            description: "在目前 OpenCode session 記住相同規則".to_owned(),
        },
    );
    options.push(
        QuestionOption {
            label: PERMISSION_REJECT_LABEL.to_owned(),
            description: "拒絕執行".to_owned(),
        },
    );
    let r = QuestionInfo {
        question,
        header: "🔐 權限確認".to_owned(),
        options,
        multiple: false,
        custom: false,
    };
    assert(r@.options =~= permission_question(question@).options);
    r
}

/// The request for answers that a permission event denotes.
pub fn parse_permission_request(properties: &Json) -> (r: Option<QuestionRequest>)
    ensures
        opt_request(r) == permission_request_in(properties@),
{
    let id = match properties.get("id") {
        Some(j) => Some(j),
        None => properties.get("requestID"),
    };
    let permission_id = match id {
        Some(j) => match j.as_str() {
            Some(s) => s.to_owned(),
            None => return None,
        },
        None => return None,
    };
    let session_id = match properties.str_at("sessionID") {
        Some(s) => s.to_owned(),
        None => return None,
    };
    let patterns = match properties.array_at("patterns") {
        Some(items) => collect_patterns(items),
        None => {
            let none: Vec<String> = Vec::new();
            assert(texts(none@) =~= Seq::empty());
            none
        },
    };
    let mut question = String::from_str("OpenCode 要求執行權限：");
    match properties.str_at("permission") {
        Some(p) => question.append(p),
        None => question.append("tool"),
    }
    let ghost head = question@;
    if patterns.len() > 0 {
        question.append("\n\n範圍：\n• ");
        let list = join(&patterns, "\n• ");
        question.append(list.as_str());
    }
    proof {
        let p = or_else(properties@.str_at("permission"@), "tool"@);
        assert(question@ =~= permission_prompt(p, texts(patterns@)));
    }
    let mut request_id = String::from_str(PERMISSION_REQUEST_PREFIX);
    request_id.append(permission_id.as_str());
    let mut questions: Vec<QuestionInfo> = Vec::new();
    let info = permission_info(question);
    questions.push(info);
    assert(questions_of(questions@) =~= seq![info@]);
    Some(QuestionRequest { request_id, session_id, questions })
}

// ---------------------------------------------------------------------------
// Server events
// ---------------------------------------------------------------------------

/// What an event of the agent server asks for.
#[derive(Debug, PartialEq, Eq)]
pub enum ServerEventAction {
    /// Show an event.
    Emit(StreamEvent),
    /// The session has nothing more to say.
    Idle,
    /// Nothing.
    Ignore,
}

/// The mathematical form of an action.
pub enum ActionView {
    Emit(EventView),
    Idle,
    Ignore,
}

impl View for ServerEventAction {
    type V = ActionView;

    open spec fn view(&self) -> ActionView {
        match self {
            ServerEventAction::Emit(e) => ActionView::Emit(e@),
            ServerEventAction::Idle => ActionView::Idle,
            ServerEventAction::Ignore => ActionView::Ignore,
        }
    }
}

/// The text of a member of a member.
pub open spec fn inner_str(v: JsonView, outer: Seq<char>, inner: Seq<char>) -> Option<Seq<char>> {
    match v.get(outer) {
        Some(o) => o.str_at(inner),
        None => None,
    }
}

/// The session that an event belongs to.
pub open spec fn session_in(properties: JsonView) -> Option<Seq<char>> {
    either(
        either(properties.str_at("sessionID"@), inner_str(properties, "session"@, "id"@)),
        inner_str(properties, "info"@, "id"@),
    )
}

/// The part of an event that holds its type and properties.
pub open spec fn payload_of(value: JsonView) -> JsonView {
    or_else(value.get("payload"@), value)
}

/// The properties of an event.
pub open spec fn properties_of(value: JsonView) -> JsonView {
    or_else(payload_of(value).get("properties"@), payload_of(value))
}

/// The type of an event.
pub open spec fn type_of(value: JsonView) -> Seq<char> {
    or_else(payload_of(value).str_at("type"@), Seq::empty())
}

/// The key by which one use of a tool is told from another.
pub open spec fn tool_key(part: JsonView) -> Seq<char> {
    or_else(either(part.str_at("callID"@), part.str_at("id"@)), "tool"@)
}

/// The key with which an event marks a tool as seen, if it is about a tool of the session.
pub open spec fn marked_tool(value: JsonView, session_id: Seq<char>) -> Option<Seq<char>> {
    let properties = properties_of(value);
    match properties.get("part"@) {
        Some(part) => if type_of(value) == "message.part.updated"@ && part_of_session(
            properties,
            part,
            session_id,
        ) && or_else(part.str_at("type"@), Seq::empty()) == "tool"@ {
            Some(tool_key(part))
        } else {
            None
        },
        None => None,
    }
}

/// A part belongs to the session, by its own word or that of its event.
pub open spec fn part_of_session(properties: JsonView, part: JsonView, session_id: Seq<char>) -> bool {
    part.str_at("sessionID"@) == Some(session_id) || session_in(properties) == Some(session_id)
}

/// What an updated part asks for. A tool is shown only the first time it is seen.
pub open spec fn part_action(properties: JsonView, part: JsonView, seen: Seq<Seq<char>>) -> ActionView {
    let kind = or_else(part.str_at("type"@), Seq::empty());
    if kind == "reasoning"@ {
        let text = or_else(either(properties.str_at("delta"@), part.str_at("text"@)), Seq::empty());
        if blank(text) {
            ActionView::Ignore
        } else {
            ActionView::Emit(EventView::Reasoning(text))
        }
    } else if kind == "tool"@ {
        let name = or_else(part.str_at("tool"@), "tool"@);
        if seen.contains(tool_key(part)) || name == "question"@ {
            ActionView::Ignore
        } else {
            ActionView::Emit(EventView::ToolUse(tool_text(part, name)))
        }
    } else if kind == "step-start"@ {
        ActionView::Emit(EventView::StepStart)
    } else if kind == "step-finish"@ {
        ActionView::Emit(EventView::StepFinish)
    } else {
        ActionView::Ignore
    }
}

/// What a request for answers of the session asks for.
pub open spec fn request_action(request: Option<RequestView>, session_id: Seq<char>) -> ActionView {
    match request {
        Some(r) => if r.session_id == session_id {
            ActionView::Emit(EventView::QuestionRequest(r))
        } else {
            ActionView::Ignore
        },
        None => ActionView::Ignore,
    }
}

/// What an event of the agent server asks for, seen from one session.
pub open spec fn action_for(value: JsonView, session_id: Seq<char>, seen: Seq<Seq<char>>) -> ActionView {
    let properties = properties_of(value);
    let kind = type_of(value);
    let own = session_in(properties) == Some(session_id);
    if kind == "session.idle"@ {
        if own {
            ActionView::Idle
        } else {
            ActionView::Ignore
        }
    } else if kind == "session.status"@ {
        if own && inner_str(properties, "status"@, "type"@) == Some("idle"@) {
            ActionView::Idle
        } else {
            ActionView::Ignore
        }
    } else if kind == "question.asked"@ {
        request_action(question_request_in(properties), session_id)
    } else if kind == "permission.asked"@ {
        request_action(permission_request_in(properties), session_id)
    } else if kind == "message.part.updated"@ {
        match properties.get("part"@) {
            Some(part) => if part_of_session(properties, part, session_id) {
                part_action(properties, part, seen)
            } else {
                ActionView::Ignore
            },
            None => ActionView::Ignore,
        }
    } else {
        ActionView::Ignore
    }
}

/// The tools seen after an event.
pub open spec fn seen_after(value: JsonView, session_id: Seq<char>, seen: Seq<Seq<char>>) -> Seq<Seq<char>> {
    match marked_tool(value, session_id) {
        Some(key) => if seen.contains(key) {
            seen
        } else {
            seen.push(key)
        },
        None => seen,
    }
}

fn inner_text<'a>(v: &'a Json, outer: &str, inner: &str) -> (r: Option<&'a str>)
    ensures
        opt_str(r) == inner_str(v@, outer@, inner@),
{
    match v.get(outer) {
        Some(o) => o.str_at(inner),
        None => None,
    }
}

/// The session that an event belongs to.
pub fn event_session_id(properties: &Json) -> (r: Option<String>)
    ensures
        opt_text(r) == session_in(properties@),
{
    if let Some(id) = properties.str_at("sessionID") {
        return Some(id.to_owned());
    }
    if let Some(id) = inner_text(properties, "session", "id") {
        return Some(id.to_owned());
    }
    match inner_text(properties, "info", "id") {
        Some(id) => Some(id.to_owned()),
        None => None,
    }
}

fn is_text(o: Option<&str>, text: &str) -> (r: bool)
    ensures
        r == (opt_str(o) == Some(text@)),
{
    match o {
        Some(s) => same(s, text),
        None => false,
    }
}

fn belongs(properties: &Json, session_id: &str) -> (r: bool)
    ensures
        r == (session_in(properties@) == Some(session_id@)),
{
    match event_session_id(properties) {
        Some(id) => same(id.as_str(), session_id),
        None => false,
    }
}

fn is_seen(seen: &Vec<String>, key: &str) -> (r: bool)
    ensures
        r == texts(seen@).contains(key@),
{
    let mut i: usize = 0;
    while i < seen.len()
        invariant
            i <= seen.len(),
            forall|k: int| 0 <= k < i ==> #[trigger] texts(seen@)[k] != key@,
        decreases seen.len() - i,
    {
        if same(seen[i].as_str(), key) {
            assert(texts(seen@)[i as int] == key@);
            return true;
        }
        i = i + 1;
    }
    false
}

fn text_or<'a>(o: Option<&'a str>, other: &'a str) -> (r: &'a str)
    ensures
        r@ == or_else(opt_str(o), other@),
{
    match o {
        Some(s) => s,
        None => other,
    }
}

fn emit_request(request: Option<QuestionRequest>, session_id: &str) -> (r: ServerEventAction)
    ensures
        r@ == request_action(opt_request(request), session_id@),
{
    match request {
        Some(q) => {
            if same(q.session_id.as_str(), session_id) {
                ServerEventAction::Emit(StreamEvent::QuestionRequest(q))
            } else {
                ServerEventAction::Ignore
            }
        },
        None => ServerEventAction::Ignore,
    }
}

fn part_event(properties: &Json, part: &Json, seen_tools: &mut Vec<String>) -> (r: ServerEventAction)
    ensures
        r@ == part_action(properties@, part@, texts(old(seen_tools)@)),
        texts(final(seen_tools)@) == (if or_else(part@.str_at("type"@), Seq::empty()) == "tool"@
            && !texts(old(seen_tools)@).contains(tool_key(part@)) {
            texts(old(seen_tools)@).push(tool_key(part@))
        } else {
            texts(old(seen_tools)@)
        }),
{
    proof {
        reveal_strlit("");
        assert(""@ =~= Seq::<char>::empty());
    }
    let ghost before = seen_tools@;
    let kind = text_or(part.str_at("type"), "");
    proof {
        reveal_strlit("reasoning");
        reveal_strlit("tool");
        reveal_strlit("step-start");
        reveal_strlit("step-finish");
        assert("reasoning"@.len() != "tool"@.len());
    }
    if same(kind, "reasoning") {
        let text = match properties.str_at("delta") {
            Some(t) => t,
            None => text_or(part.str_at("text"), ""),
        };
        if is_blank(text) {
            ServerEventAction::Ignore
        } else {
            ServerEventAction::Emit(StreamEvent::Reasoning(text.to_owned()))
        }
    } else if same(kind, "tool") {
        let key = match part.str_at("callID") {
            Some(k) => k,
            None => text_or(part.str_at("id"), "tool"),
        };
        if is_seen(seen_tools, key) {
            return ServerEventAction::Ignore;
        }
        seen_tools.push(key.to_owned());
        assert(texts(seen_tools@) =~= texts(before).push(key@));
        let name = text_or(part.str_at("tool"), "tool");
        if same(name, "question") {
            return ServerEventAction::Ignore;
        }
        ServerEventAction::Emit(StreamEvent::ToolUse(format_tool_use_name(part, name)))
    } else if same(kind, "step-start") {
        ServerEventAction::Emit(StreamEvent::StepStart)
    } else if same(kind, "step-finish") {
        ServerEventAction::Emit(StreamEvent::StepFinish)
    } else {
        ServerEventAction::Ignore
    }
}

/// Decides what an event of the agent server asks for, seen from one session. `seen_tools` holds
/// the uses of tools that were shown already, each once.
pub fn map_server_event(value: &Json, session_id: &str, seen_tools: &mut Vec<String>) -> (r:
    ServerEventAction)
    ensures
        r@ == action_for(value@, session_id@, texts(old(seen_tools)@)),
        texts(final(seen_tools)@) == seen_after(value@, session_id@, texts(old(seen_tools)@)),
{
    proof {
        reveal_strlit("");
        assert(""@ =~= Seq::<char>::empty());
        reveal_strlit("session.idle");
        reveal_strlit("session.status");
        reveal_strlit("question.asked");
        reveal_strlit("permission.asked");
        reveal_strlit("message.part.updated");
        assert("session.idle"@.len() == 12);
        assert("session.status"@.len() == 14);
        assert("question.asked"@.len() == 14);
        assert("permission.asked"@.len() == 16);
        assert("message.part.updated"@.len() == 20);
    }
    let payload = match value.get("payload") {
        Some(p) => p,
        None => value,
    };
    let kind = text_or(payload.str_at("type"), "");
    let properties = match payload.get("properties") {
        Some(p) => p,
        None => payload,
    };
    if same(kind, "session.idle") {
        return if belongs(properties, session_id) {
            ServerEventAction::Idle
        } else {
            ServerEventAction::Ignore
        };
    }
    if same(kind, "session.status") {
        let idle = is_text(inner_text(properties, "status", "type"), "idle");
        return if idle && belongs(properties, session_id) {
            ServerEventAction::Idle
        } else {
            ServerEventAction::Ignore
        };
    }
    if same(kind, "question.asked") {
        return emit_request(parse_question_request(properties), session_id);
    }
    if same(kind, "permission.asked") {
        return emit_request(parse_permission_request(properties), session_id);
    }
    if !same(kind, "message.part.updated") {
        return ServerEventAction::Ignore;
    }
    let part = match properties.get("part") {
        Some(p) => p,
        None => return ServerEventAction::Ignore,
    };
    if !is_text(part.str_at("sessionID"), session_id) && !belongs(properties, session_id) {
        return ServerEventAction::Ignore;
    }
    part_event(properties, part, seen_tools)
}

/// No use of a tool is ever marked twice.
pub proof fn seen_tools_stay_distinct(value: JsonView, session_id: Seq<char>, seen: Seq<Seq<char>>)
    requires
        seen.no_duplicates(),
    ensures
        seen_after(value, session_id, seen).no_duplicates(),
{
}

/// A use of a tool that was marked is never shown again.
pub proof fn seen_tools_are_not_shown_again(value: JsonView, session_id: Seq<char>, seen: Seq<Seq<char>>, later: JsonView)
    requires
        marked_tool(value, session_id) is Some,
        marked_tool(later, session_id) == marked_tool(value, session_id),
    ensures
        action_for(later, session_id, seen_after(value, session_id, seen)) is Ignore,
{
    let key = marked_tool(value, session_id)->0;
    let after = seen_after(value, session_id, seen);
    assert(after.contains(key)) by {
        if !seen.contains(key) {
            assert(after[seen.len() as int] == key);
        }
    }
    reveal_strlit("session.idle");
    reveal_strlit("session.status");
    reveal_strlit("question.asked");
    reveal_strlit("permission.asked");
    reveal_strlit("message.part.updated");
    reveal_strlit("reasoning");
    reveal_strlit("tool");
    assert("message.part.updated"@.len() == 20);
    assert("tool"@.len() == 4);
}

/// Events of other sessions are never shown.
pub proof fn other_sessions_are_ignored(value: JsonView, session_id: Seq<char>, seen: Seq<Seq<char>>)
    requires
        session_in(properties_of(value)) != Some(session_id),
        properties_of(value).str_at("sessionID"@) != Some(session_id),
        properties_of(value).get("part"@) matches Some(part) ==> part.str_at("sessionID"@) != Some(session_id),
    ensures
        action_for(value, session_id, seen) is Ignore,
{
}

} // verus!
