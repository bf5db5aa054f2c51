//! What of a server's events reaches the user, and how its failures are told apart.
use crate::gateway::event_map::{
    action_for, all_question_lines, field_line, labelled, option_line, option_lines, patterns_in, permission_prompt, permission_request_in, prompt_line, properties_of, question_in, question_lines, question_request_in, questions_in, seen_after, session_in, shortened, tool_key, tool_lines, tool_text, type_of, ActionView,
};
use crate::gateway::backend::{answer_after, event_shown, filtered, with_line, AnswerView};
use crate::gateway::error::GatewayError;
use crate::gateway::server_turn::{after_value, not_found, stage_after, FeedView, Stage, StageEnd};
use crate::gateway::sse::{data_after, data_on, event_ended};
use crate::gateway::stream::{
    event_in, event_on, permission_of, reply_to_label, session_on, EventView, PERMISSION_REQUEST_PREFIX,
};
use crate::gateway::upstream_error::{
    class_of, error_detail, error_in, gap_skipped, key_has_code, status_signal, text_class, value_is, without_lead, UpstreamError,
    UpstreamFailure,
};
use crate::json::{parsed_json, JsonView};
use crate::text::{
    ascii_digit, begins, blank, decimal, first_index, first_index_is_first, has, inner_parts_are_found,
    joined, occurs_at, parts_are_found, trimmed,
};
use vstd::prelude::*;

verus! {

// ---------------------------------------------------------------------------
// Events
// ---------------------------------------------------------------------------

/// A value of up to a hundred and twenty characters is shown whole; of a longer one the start is shown,
/// with dots behind it.
pub proof fn long_values_are_cut(s: Seq<char>)
    ensures
        s.len() <= 120 ==> shortened(s) == s,
        s.len() > 120 ==> shortened(s).len() == 120 && shortened(s).take(117) == s.take(117) && shortened(s).skip(117)
            == "..."@,
{
    reveal_strlit("...");
    if s.len() > 120 {
        assert(shortened(s).take(117) =~= s.take(117));
        assert(shortened(s).skip(117) =~= "..."@);
    }
}

/// An event means the same inside an envelope and without one.
pub proof fn envelopes_make_no_difference(value: JsonView, inner: JsonView, session_id: Seq<char>, seen: Seq<Seq<char>>)
    requires
        value.get("payload"@) == Some(inner),
        inner.get("payload"@) is None,
    ensures
        action_for(value, session_id, seen) == action_for(inner, session_id, seen),
        seen_after(value, session_id, seen) == seen_after(inner, session_id, seen),
{
}

/// A session that the server calls idle has nothing more to say, in either of the two ways to say so; it
/// has where the server says anything else.
pub proof fn idle_sessions_end_the_turn(value: JsonView, session_id: Seq<char>, seen: Seq<Seq<char>>, status: JsonView)
    requires
        session_in(properties_of(value)) == Some(session_id),
    ensures
        type_of(value) == "session.idle"@ ==> action_for(value, session_id, seen) is Idle,
        type_of(value) == "session.status"@ && properties_of(value).get("status"@) == Some(status) ==> (action_for(
            value,
            session_id,
            seen,
        ) is Idle <==> status.str_at("type"@) == Some("idle"@)),
{
    kinds_differ();
}

/// Where an event says which session it belongs to: at its top, in its session or in its info.
pub proof fn sessions_are_named_in_three_places(p: JsonView, s: JsonView, i: JsonView, id: Seq<char>)
    ensures
        p.str_at("sessionID"@) == Some(id) ==> session_in(p) == Some(id),
        p.str_at("sessionID"@) is None && p.get("session"@) == Some(s) && s.str_at("id"@) == Some(id) ==> session_in(p)
            == Some(id),
        p.str_at("sessionID"@) is None && p.get("session"@) is None && p.get("info"@) == Some(i) && i.str_at("id"@) == Some(
            id,
        ) ==> session_in(p) == Some(id),
        p.str_at("sessionID"@) is None && p.get("session"@) is None && p.get("info"@) is None ==> session_in(p) is None,
{
}

/// A thought of the session is shown: what was added to it, or else all of it, unless it is blank.
pub proof fn thoughts_are_shown(value: JsonView, part: JsonView, session_id: Seq<char>, seen: Seq<Seq<char>>, t: Seq<char>)
    requires
        type_of(value) == "message.part.updated"@,
        properties_of(value).get("part"@) == Some(part),
        part.str_at("sessionID"@) == Some(session_id) || session_in(properties_of(value)) == Some(session_id),
        part.str_at("type"@) == Some("reasoning"@),
        properties_of(value).str_at("delta"@) == Some(t) || (properties_of(value).str_at("delta"@) is None && part.str_at(
            "text"@,
        ) == Some(t)),
    ensures
        !blank(t) ==> action_for(value, session_id, seen) == ActionView::Emit(EventView::Reasoning(t)),
        blank(t) ==> action_for(value, session_id, seen) is Ignore,
{
    kinds_differ();
}

proof fn kinds_differ()
    ensures
        "message.part.updated"@ != "session.idle"@,
        "message.part.updated"@ != "session.status"@,
        "message.part.updated"@ != "question.asked"@,
        "message.part.updated"@ != "permission.asked"@,
        "question.asked"@ != "session.idle"@,
        "question.asked"@ != "session.status"@,
        "permission.asked"@ != "session.idle"@,
        "permission.asked"@ != "session.status"@,
        "permission.asked"@ != "question.asked"@,
        "session.status"@ != "session.idle"@,
        "tool"@ != "reasoning"@,
        "step-start"@ != "reasoning"@,
        "step-start"@ != "tool"@,
        "step-finish"@ != "reasoning"@,
        "step-finish"@ != "tool"@,
        "step-finish"@ != "step-start"@,
{
    reveal_strlit("message.part.updated");
    reveal_strlit("session.idle");
    reveal_strlit("session.status");
    reveal_strlit("question.asked");
    reveal_strlit("permission.asked");
    reveal_strlit("tool");
    reveal_strlit("reasoning");
    reveal_strlit("step-start");
    reveal_strlit("step-finish");
    assert("message.part.updated"@.len() == 20);
    assert("session.idle"@.len() == 12);
    assert("session.status"@.len() == 14);
    assert("question.asked"@.len() == 14);
    assert("permission.asked"@.len() == 16);
    assert("question.asked"@[0] != "session.status"@[0]);
    assert("tool"@.len() == 4);
    assert("reasoning"@.len() == 9);
    assert("step-start"@.len() == 10);
    assert("step-finish"@.len() == 11);
}

/// The first news of the use of a tool is shown, with the tool's name first, except of the tool that asks
/// questions; later news of the same use are not.
pub proof fn tools_are_shown_once(value: JsonView, part: JsonView, session_id: Seq<char>, seen: Seq<Seq<char>>, name: Seq<char>)
    requires
        type_of(value) == "message.part.updated"@,
        properties_of(value).get("part"@) == Some(part),
        part.str_at("sessionID"@) == Some(session_id) || session_in(properties_of(value)) == Some(session_id),
        part.str_at("type"@) == Some("tool"@),
        part.str_at("tool"@) == Some(name),
    ensures
        ({
            let key = match part.str_at("callID"@) {
                Some(k) => k,
                None => match part.str_at("id"@) {
                    Some(k) => k,
                    None => "tool"@,
                },
            };
            &&& !seen.contains(key) && name != "question"@ ==> action_for(value, session_id, seen) == ActionView::Emit(
                EventView::ToolUse(tool_text(part, name)),
            )
            &&& seen.contains(key) ==> action_for(value, session_id, seen) is Ignore
            &&& name == "question"@ ==> action_for(value, session_id, seen) is Ignore
            &&& seen_after(value, session_id, seen).contains(key)
        }),
        tool_text(part, name).take(name.len() as int) == name,
{
    kinds_differ();
    let key = tool_key(part);
    let s = seen_after(value, session_id, seen);
    if seen.contains(key) {
        assert(s == seen);
    } else {
        assert(s[seen.len() as int] == key);
    }
    first_line_first(name, tool_lines(part, name));
}

proof fn first_line_first(name: Seq<char>, rest: Seq<Seq<char>>)
    ensures
        joined(seq![name] + rest, "\n"@).len() >= name.len(),
        joined(seq![name] + rest, "\n"@).take(name.len() as int) == name,
    decreases rest.len(),
{
    let all = seq![name] + rest;
    if rest.len() == 0 {
        assert(all[0] == name);
        assert(joined(all, "\n"@).take(name.len() as int) =~= name);
    } else {
        first_line_first(name, rest.drop_last());
        assert(all.drop_last() =~= seq![name] + rest.drop_last());
        let before = joined(all.drop_last(), "\n"@);
        assert(joined(all, "\n"@).take(name.len() as int) =~= before.take(name.len() as int));
    }
}

/// Steps are shown when they start and when they end.
pub proof fn steps_are_shown(value: JsonView, part: JsonView, session_id: Seq<char>, seen: Seq<Seq<char>>)
    requires
        type_of(value) == "message.part.updated"@,
        properties_of(value).get("part"@) == Some(part),
        part.str_at("sessionID"@) == Some(session_id) || session_in(properties_of(value)) == Some(session_id),
    ensures
        part.str_at("type"@) == Some("step-start"@) ==> action_for(value, session_id, seen) == ActionView::Emit(
            EventView::StepStart,
        ),
        part.str_at("type"@) == Some("step-finish"@) ==> action_for(value, session_id, seen) == ActionView::Emit(
            EventView::StepFinish,
        ),
{
    kinds_differ();
}

/// A question or a request for a permission reaches the user exactly where it is of the session and can
/// be read.
pub proof fn questions_reach_the_user(value: JsonView, session_id: Seq<char>, seen: Seq<Seq<char>>)
    ensures
        type_of(value) == "question.asked"@ && question_request_in(properties_of(value)) is Some && question_request_in(
            properties_of(value),
        )->0.session_id == session_id ==> action_for(value, session_id, seen) == ActionView::Emit(
            EventView::QuestionRequest(question_request_in(properties_of(value))->0),
        ),
        type_of(value) == "permission.asked"@ && permission_request_in(properties_of(value)) is Some && permission_request_in(
            properties_of(value),
        )->0.session_id == session_id ==> action_for(value, session_id, seen) == ActionView::Emit(
            EventView::QuestionRequest(permission_request_in(properties_of(value))->0),
        ),
{
    kinds_differ();
}

// ---------------------------------------------------------------------------
// Tools
// ---------------------------------------------------------------------------

proof fn lines_are_joined(name: Seq<char>, rest: Seq<Seq<char>>, k: int)
    requires
        0 <= k < rest.len(),
    ensures
        has(joined(seq![name] + rest, "\n"@), rest[k]),
    decreases rest.len(),
{
    let all = seq![name] + rest;
    let before = joined(all.drop_last(), "\n"@);
    assert(all.drop_last() =~= seq![name] + rest.drop_last());
    let full = joined(all, "\n"@);
    assert(all.last() == rest.last());
    if k < rest.len() - 1 {
        lines_are_joined(name, rest.drop_last(), k);
        crate::text::longer_texts_hold_as_much(Seq::empty(), before, "\n"@ + rest.last(), rest[k]);
        assert(Seq::<char>::empty() + before + ("\n"@ + rest.last()) =~= full);
    } else {
        parts_are_found(before + "\n"@, rest.last(), Seq::empty());
        assert(before + "\n"@ + rest.last() + Seq::<char>::empty() =~= full);
    }
}

/// What a tool works on is shown: the command of a shell, the file that is read, the pattern, the path
/// and the kind of files that are searched; of other tools only the name.
pub proof fn tools_show_what_they_work_on(part: JsonView, input: JsonView, state: JsonView, v: Seq<char>)
    requires
        part.get("state"@) == Some(state),
        state.get("input"@) == Some(input),
        v.len() > 0,
    ensures
        input.str_at("command"@) == Some(v) ==> has(tool_text(part, "bash"@), "  command: "@ + shortened(v)),
        input.str_at("filePath"@) == Some(v) ==> has(tool_text(part, "read"@), "  filePath: "@ + shortened(v)),
        input.str_at("pattern"@) == Some(v) ==> has(tool_text(part, "grep"@), "  pattern: "@ + shortened(v)) && has(
            tool_text(part, "glob"@),
            "  pattern: "@ + shortened(v),
        ),
        input.str_at("path"@) == Some(v) ==> has(tool_text(part, "grep"@), "  path: "@ + shortened(v)) && has(
            tool_text(part, "glob"@),
            "  path: "@ + shortened(v),
        ),
        input.str_at("include"@) == Some(v) ==> has(tool_text(part, "grep"@), "  include: "@ + shortened(v)),
{
    reveal_strlit("bash");
    reveal_strlit("read");
    reveal_strlit("grep");
    reveal_strlit("glob");
    reveal_strlit("question");
    assert("bash"@[0] == 'b' && "read"@[0] == 'r' && "grep"@[1] == 'r' && "glob"@[1] == 'l');
    field_labels();
    if input.str_at("command"@) == Some(v) {
        let l = tool_lines(part, "bash"@);
        assert(l[0] == "  command: "@ + shortened(v));
        lines_are_joined("bash"@, l, 0);
    }
    if input.str_at("filePath"@) == Some(v) {
        let l = tool_lines(part, "read"@);
        assert(l[0] == "  filePath: "@ + shortened(v));
        lines_are_joined("read"@, l, 0);
    }
    if input.str_at("pattern"@) == Some(v) {
        let l = tool_lines(part, "grep"@);
        assert(l[0] == "  pattern: "@ + shortened(v));
        lines_are_joined("grep"@, l, 0);
        let m = tool_lines(part, "glob"@);
        assert(m[0] == "  pattern: "@ + shortened(v));
        lines_are_joined("glob"@, m, 0);
    }
    let n = field_line(input, "pattern"@).len() as int;
    if input.str_at("path"@) == Some(v) {
        let l = tool_lines(part, "grep"@);
        assert(l[n] == "  path: "@ + shortened(v));
        lines_are_joined("grep"@, l, n);
        let m = tool_lines(part, "glob"@);
        assert(m[n] == "  path: "@ + shortened(v));
        lines_are_joined("glob"@, m, n);
    }
    if input.str_at("include"@) == Some(v) {
        let k = n + field_line(input, "path"@).len();
        let l = tool_lines(part, "grep"@);
        assert(l[k] == "  include: "@ + shortened(v));
        lines_are_joined("grep"@, l, k);
    }
}

proof fn field_labels()
    ensures
        "  "@ + "command"@ + ": "@ == "  command: "@,
        "  "@ + "filePath"@ + ": "@ == "  filePath: "@,
        "  "@ + "pattern"@ + ": "@ == "  pattern: "@,
        "  "@ + "path"@ + ": "@ == "  path: "@,
        "  "@ + "include"@ + ": "@ == "  include: "@,
{
    reveal_strlit("  ");
    reveal_strlit(": ");
    reveal_strlit("command");
    reveal_strlit("filePath");
    reveal_strlit("pattern");
    reveal_strlit("path");
    reveal_strlit("include");
    reveal_strlit("  command: ");
    reveal_strlit("  filePath: ");
    reveal_strlit("  pattern: ");
    reveal_strlit("  path: ");
    reveal_strlit("  include: ");
    assert("  "@ + "command"@ + ": "@ =~= "  command: "@);
    assert("  "@ + "filePath"@ + ": "@ =~= "  filePath: "@);
    assert("  "@ + "pattern"@ + ": "@ =~= "  pattern: "@);
    assert("  "@ + "path"@ + ": "@ =~= "  path: "@);
    assert("  "@ + "include"@ + ": "@ =~= "  include: "@);
}

/// Of other tools, and of tools without input, only the name is shown.
pub proof fn other_tools_show_their_name(part: JsonView, name: Seq<char>)
    requires
        name != "bash"@ && name != "read"@ && name != "grep"@ && name != "glob"@ && name != "question"@ || part.get("state"@) is None,
    ensures
        tool_text(part, name) == name,
{
    assert(seq![name] + Seq::<Seq<char>>::empty() =~= seq![name]);
}

// ---------------------------------------------------------------------------
// Questions
// ---------------------------------------------------------------------------

/// A question of the tool that asks is shown with its header and its text, and its options are numbered in
/// order; options without a label are passed over, but keep their number.
pub proof fn questions_are_shown_with_their_options(q: JsonView, h: Seq<char>, t: Seq<char>, items: Seq<JsonView>, o: JsonView, l: Seq<char>, d: Seq<char>)
    requires
        h.len() > 0 && t.len() > 0 && l.len() > 0 && d.len() > 0,
    ensures
        q.str_at("question"@) == Some(t) && q.str_at("header"@) == Some(h) ==> prompt_line(q) == seq![
            "  "@ + h + ": "@ + shortened(t),
        ],
        q.str_at("question"@) == Some(t) && q.str_at("header"@) is None ==> prompt_line(q) == seq!["  "@ + shortened(t)],
        q.str_at("question"@) is None ==> prompt_line(q).len() == 0,
        o.str_at("label"@) == Some(l) && o.str_at("description"@) == Some(d) ==> option_lines(items.push(o)) == option_lines(
            items,
        ).push("  "@ + decimal(items.len() + 1) + ". "@ + shortened(l) + " - "@ + shortened(d)),
        o.str_at("label"@) == Some(l) && o.str_at("description"@) is None ==> option_lines(items.push(o)) == option_lines(
            items,
        ).push("  "@ + decimal(items.len() + 1) + ". "@ + shortened(l)),
        o.str_at("label"@) is None ==> option_lines(items.push(o)) == option_lines(items),
{
    let all = items.push(o);
    assert(all.drop_last() =~= items);
    let line = option_line(o, all.len());
    if o.str_at("label"@) == Some(l) {
        assert(option_lines(items) + line =~= option_lines(items).push(line[0]));
    } else if o.str_at("label"@) is None {
        assert(option_lines(items) + line =~= option_lines(items));
    }
}

/// All questions of the tool that asks are shown, each with its options.
pub proof fn all_questions_are_shown(items: Seq<JsonView>, q: JsonView, options: Seq<JsonView>)
    ensures
        all_question_lines(items.push(q)) == all_question_lines(items) + question_lines(q),
        q.array_at("options"@) == Some(options) ==> question_lines(q) == prompt_line(q) + option_lines(options),
        q.array_at("options"@) is None ==> question_lines(q) == prompt_line(q),
{
    assert(items.push(q).drop_last() =~= items);
    if q.array_at("options"@) is None {
        assert(question_lines(q) =~= prompt_line(q));
    }
}

/// Every option that has a label is offered, with its description, in order; the others are not.
pub proof fn labelled_options_are_offered(items: Seq<JsonView>, next: JsonView)
    ensures
        labelled(Seq::<JsonView>::empty()).len() == 0,
        next.str_at("label"@) is None ==> labelled(items.push(next)) == labelled(items),
        next.str_at("label"@) is Some ==> labelled(items.push(next)).drop_last() == labelled(items) && labelled(
            items.push(next),
        ).last().label == next.str_at("label"@)->0 && labelled(items.push(next)).last().description == (match next.str_at(
            "description"@,
        ) {
            Some(d) => d,
            None => Seq::empty(),
        }),
{
    assert(items.push(next).drop_last() =~= items);
    if next.str_at("label"@) is Some {
        assert(labelled(items.push(next)).drop_last() =~= labelled(items));
    }
}

/// A question is asked as it stands: its text, its header, its options, whether several may be chosen
/// and whether another answer may be given, which is the case unless it is ruled out.
pub proof fn questions_are_asked_as_they_stand(v: JsonView, q: Seq<char>)
    ensures
        v.str_at("question"@) is None ==> question_in(v) is None,
        v.str_at("question"@) == Some(q) ==> question_in(v) is Some && question_in(v)->0.question == q,
        v.str_at("question"@) == Some(q) && v.str_at("header"@) is Some ==> question_in(v)->0.header == v.str_at("header"@)->0,
        v.str_at("question"@) == Some(q) && v.array_at("options"@) is Some ==> question_in(v)->0.options == labelled(
            v.array_at("options"@)->0,
        ),
        v.str_at("question"@) == Some(q) ==> (question_in(v)->0.multiple <==> v.bool_at("multiple"@) == Some(true)),
        v.str_at("question"@) == Some(q) ==> (question_in(v)->0.custom <==> v.bool_at("custom"@) != Some(false)),
{
}

proof fn all_questions_are_asked(items: Seq<JsonView>)
    ensures
        forall|k: int|
            0 <= k < items.len() && question_in(#[trigger] items[k]) is Some ==> questions_in(items).contains(
                question_in(items[k])->0,
            ),
        questions_in(items).len() <= items.len(),
        (forall|k: int| 0 <= k < items.len() ==> question_in(#[trigger] items[k]) is Some) ==> questions_in(items).len()
            == items.len() && forall|k: int|
            0 <= k < items.len() ==> #[trigger] questions_in(items)[k] == question_in(items[k])->0,
    decreases items.len(),
{
    if items.len() > 0 {
        let d = items.drop_last();
        let (t, w) = (questions_in(items), questions_in(d));
        all_questions_are_asked(d);
        assert(items[items.len() - 1] == items.last());
        assert forall|k: int| 0 <= k < items.len() && question_in(#[trigger] items[k]) is Some implies t.contains(
            question_in(items[k])->0,
        ) by {
            if k < d.len() {
                assert(d[k] == items[k]);
                assert(t[w.index_of(question_in(d[k])->0)] == question_in(items[k])->0);
            } else {
                assert(t[w.len() as int] == question_in(items[k])->0);
            }
        }
        if forall|k: int| 0 <= k < items.len() ==> question_in(#[trigger] items[k]) is Some {
            assert forall|k: int| 0 <= k < d.len() implies question_in(#[trigger] d[k]) is Some by {
                assert(d[k] == items[k]);
            }
            assert forall|k: int| 0 <= k < items.len() implies #[trigger] t[k] == question_in(items[k])->0 by {
                if k < d.len() {
                    assert(t[k] == w[k]);
                }
            }
        }
    }
}

/// A request with an id, a session and questions is asked with all of its questions that can be read, in
/// order; one without any of these, or without a question that can be read, is not.
pub proof fn requests_ask_all_their_questions(v: JsonView, id: Seq<char>, session: Seq<char>, items: Seq<JsonView>, k: int)
    requires
        v.str_at("id"@) == Some(id),
        v.str_at("sessionID"@) == Some(session),
        v.array_at("questions"@) == Some(items),
        0 <= k < items.len(),
        question_in(items[k]) is Some,
    ensures
        question_request_in(v) is Some,
        question_request_in(v)->0.request_id == id,
        question_request_in(v)->0.session_id == session,
        question_request_in(v)->0.questions.contains(question_in(items[k])->0),
{
    all_questions_are_asked(items);
    assert(questions_in(items).contains(question_in(items[k])->0));
    let x = questions_in(items).index_of(question_in(items[k])->0);
    assert(questions_in(items)[x] == question_in(items[k])->0);
}

/// A request for a permission is asked with three answers: once, always and not at all. The answer chosen
/// is what the server is told, and the id under which it is asked leads back to the server's own.
pub proof fn permissions_are_answered(v: JsonView, id: Seq<char>, session: Seq<char>)
    requires
        v.str_at("id"@) == Some(id),
        v.str_at("sessionID"@) == Some(session),
    ensures
        permission_request_in(v) is Some,
        permission_of(permission_request_in(v)->0.request_id) == Some(id),
        permission_request_in(v)->0.session_id == session,
        permission_request_in(v)->0.questions.len() == 1,
        ({
            let q = permission_request_in(v)->0.questions[0];
            &&& q.options.len() == 3
            &&& reply_to_label(Some(q.options[0].label)) == "once"@
            &&& reply_to_label(Some(q.options[1].label)) == "always"@
            &&& reply_to_label(Some(q.options[2].label)) == "reject"@
            &&& !q.multiple && !q.custom
        }),
        reply_to_label(None) == "reject"@,
{
    reveal_strlit("允許一次");
    reveal_strlit("本次工作階段總是允許");
    reveal_strlit("拒絕");
    assert("允許一次"@.len() == 4);
    assert("本次工作階段總是允許"@.len() == 10);
    assert("拒絕"@.len() == 2);
    reveal_strlit("permission-");
    let r = PERMISSION_REQUEST_PREFIX@ + id;
    assert(r.take(PERMISSION_REQUEST_PREFIX@.len() as int) =~= PERMISSION_REQUEST_PREFIX@);
    assert(r.subrange(0, PERMISSION_REQUEST_PREFIX@.len() as int) =~= PERMISSION_REQUEST_PREFIX@);
    assert(r.skip(PERMISSION_REQUEST_PREFIX@.len() as int) =~= id);
}

/// A request for a permission is known by its own id, or where it has none by that of the request.
pub proof fn permissions_are_known_by_either_id(v: JsonView, id: Seq<char>, session: Seq<char>)
    requires
        v.get("id"@) is None,
        v.str_at("requestID"@) == Some(id),
        v.str_at("sessionID"@) == Some(session),
    ensures
        permission_request_in(v) is Some,
        permission_request_in(v)->0.request_id == PERMISSION_REQUEST_PREFIX@ + id,
        permission_request_in(v)->0.session_id == session,
{
}

/// Without an id or a session there is no request for a permission.
pub proof fn permissions_need_an_id_and_a_session(v: JsonView)
    requires
        (v.get("id"@) is None && v.get("requestID"@) is None) || v.get("sessionID"@) is None,
    ensures
        permission_request_in(v) is None,
{
}

/// A request for a permission says what is asked for, and the first five places that it is asked for.
pub proof fn permissions_say_what_for(permission: Seq<char>, items: Seq<JsonView>, next: JsonView, p: Seq<char>)
    ensures
        has(permission_prompt(permission, patterns_in(items)), permission),
        patterns_in(items).len() <= 5,
        next.as_str() == Some(p) && patterns_in(items).len() < 5 ==> patterns_in(items.push(next)) == patterns_in(items).push(
            shortened(p),
        ),
        next.as_str() is None || patterns_in(items).len() == 5 ==> patterns_in(items.push(next)) == patterns_in(items),
        patterns_in(items).len() > 0 ==> has(
            permission_prompt(permission, patterns_in(items)),
            joined(patterns_in(items), "\n• "@),
        ),
    decreases items.len(),
{
    let ps = patterns_in(items);
    let full = permission_prompt(permission, ps);
    let h = "OpenCode 要求執行權限："@;
    let tail = if ps.len() > 0 {
        "\n\n範圍：\n• "@ + joined(ps, "\n• "@)
    } else {
        Seq::empty()
    };
    parts_are_found(h, permission, tail);
    assert(h + permission + tail =~= full);
    if ps.len() > 0 {
        parts_are_found(h + permission + "\n\n範圍：\n• "@, joined(ps, "\n• "@), Seq::empty());
        assert(h + permission + "\n\n範圍：\n• "@ + joined(ps, "\n• "@) + Seq::<char>::empty() =~= full);
    }
    assert(items.push(next).drop_last() =~= items);
    if items.len() > 0 {
        permissions_say_what_for(permission, items.drop_last(), items.last(), p);
        assert(items.drop_last().push(items.last()) =~= items);
    }
}

// ---------------------------------------------------------------------------
// The stream
// ---------------------------------------------------------------------------

/// An event that is to be shown is shown behind all others, and nothing else changes what is shown.
pub proof fn shown_events_stay(f: FeedView, v: JsonView, session_id: Seq<char>, e: EventView)
    ensures
        action_for(v, session_id, f.seen) == ActionView::Emit(e) ==> after_value(f, v, session_id).shown == f.shown.push(e)
            && after_value(f, v, session_id).idle == f.idle,
        action_for(v, session_id, f.seen) is Idle ==> after_value(f, v, session_id).idle && after_value(f, v, session_id).shown
            == f.shown,
        action_for(v, session_id, f.seen) is Ignore ==> after_value(f, v, session_id).shown == f.shown && after_value(
            f,
            v,
            session_id,
        ).idle == f.idle,
{
}

/// A line of data and an empty line make an event of the data; several lines of data make one event of
/// several lines.
pub proof fn data_lines_make_an_event(x: Seq<char>, y: Seq<char>)
    requires
        x.len() > 0 ==> x.last() != '\r',
        y.len() > 0 ==> y.last() != '\r',
    ensures
        event_ended(data_after(Seq::empty(), "data: "@ + x), Seq::empty()) == Some(x),
        event_ended(data_after(data_after(Seq::empty(), "data: "@ + x), "data: "@ + y), Seq::empty()) == Some(x + "\n"@ + y),
        event_ended(Seq::<Seq<char>>::empty(), Seq::empty()) is None,
        data_after(data_after(Seq::empty(), "data: "@ + x), Seq::empty()).len() == 0,
{
    data_line(x);
    data_line(y);
    let a = data_after(Seq::empty(), "data: "@ + x);
    assert(a =~= seq![x]);
    let b = data_after(a, "data: "@ + y);
    assert(b =~= seq![x, y]);
    assert(b.drop_last() =~= seq![x]);
    assert(joined(seq![x], "\n"@) == x);
    assert(joined(b, "\n"@) == x + "\n"@ + y);
}

proof fn data_line(x: Seq<char>)
    requires
        x.len() > 0 ==> x.last() != '\r',
    ensures
        crate::gateway::sse::cr_stripped("data: "@ + x) == "data: "@ + x,
        data_on("data: "@ + x) == Some(x),
        ("data: "@ + x).len() > 0,
{
    reveal_strlit("data: ");
    reveal_strlit("data:");
    reveal_strlit(" ");
    let l = "data: "@ + x;
    if x.len() > 0 {
        assert(l.last() == x.last());
    } else {
        assert(l =~= "data: "@);
    }
    assert(l.take(5) =~= "data:"@);
    assert(l.subrange(0, 5) =~= "data:"@);
    let rest = l.skip(5);
    assert(rest =~= " "@ + x);
    assert(rest.take(1) =~= " "@);
    assert(rest.subrange(0, 1) =~= " "@);
    assert(rest.skip(1) =~= x);
}

/// Lines with text, tools and steps are read as such; others are passed over.
pub proof fn lines_are_read_by_their_type(v: JsonView, t: Seq<char>)
    ensures
        v.str_at("type"@) == Some("text"@) && v.str_at("text"@) == Some(t) ==> event_in(v) == Some(EventView::Text(t)),
        v.str_at("type"@) == Some("tool_use"@) && v.str_at("name"@) == Some(t) ==> event_in(v) == Some(EventView::ToolUse(t)),
        v.str_at("type"@) == Some("step_start"@) ==> event_in(v) == Some(EventView::StepStart),
        v.str_at("type"@) == Some("step_finish"@) ==> event_in(v) == Some(EventView::StepFinish),
        v.str_at("type"@) is None ==> event_in(v) is None,
{
    reveal_strlit("text");
    reveal_strlit("tool_use");
    reveal_strlit("step_start");
    reveal_strlit("step_finish");
    assert("text"@.len() == 4);
    assert("tool_use"@.len() == 8);
    assert("step_start"@.len() == 10);
    assert("step_finish"@.len() == 11);
}

/// Text and names may also stand in the part of a line.
pub proof fn parts_of_lines_are_read(v: JsonView, part: JsonView, t: Seq<char>)
    requires
        v.get("part"@) == Some(part),
    ensures
        v.str_at("type"@) == Some("text"@) && v.str_at("text"@) is None && part.str_at("text"@) == Some(t) ==> event_in(v) == Some(
            EventView::Text(t),
        ),
        v.str_at("type"@) == Some("tool_use"@) && v.str_at("name"@) is None && part.str_at("name"@) is None && v.str_at(
            "tool"@,
        ) is None && part.str_at("tool"@) == Some(t) ==> event_in(v) == Some(EventView::ToolUse(t)),
{
    reveal_strlit("text");
    reveal_strlit("tool_use");
    assert("text"@.len() == 4);
    assert("tool_use"@.len() == 8);
}

// ---------------------------------------------------------------------------
// A turn at the server
// ---------------------------------------------------------------------------

/// A turn that goes well checks the server, creates a session where it has none, sends the message, and
/// where it streams opens the stream before and reads it after; a session that the server no longer knows
/// is replaced, once, and the message is sent again.
pub proof fn turns_go_step_by_step(has_session: bool)
    ensures
        stage_after(Stage::CheckHealth, false, true, StageEnd::Done) == Stage::Send,
        stage_after(Stage::CheckHealth, true, true, StageEnd::Done) == Stage::OpenStream,
        forall|streaming: bool| #[trigger]
            stage_after(Stage::CheckHealth, streaming, false, StageEnd::Done) == Stage::CreateSession,
        stage_after(Stage::CreateSession, false, has_session, StageEnd::Done) == Stage::Send,
        stage_after(Stage::CreateSession, true, has_session, StageEnd::Done) == Stage::OpenStream,
        stage_after(Stage::OpenStream, true, has_session, StageEnd::Done) == Stage::Send,
        stage_after(Stage::Send, false, has_session, StageEnd::Done) == Stage::Finished,
        stage_after(Stage::Send, true, has_session, StageEnd::Done) == Stage::ConsumeStream,
        stage_after(Stage::ConsumeStream, true, has_session, StageEnd::Done) == Stage::ListMessages,
        stage_after(Stage::ListMessages, true, has_session, StageEnd::Done) == Stage::Finished,
        forall|streaming: bool| #[trigger]
            stage_after(Stage::Send, streaming, has_session, StageEnd::NotFound) == Stage::ReplaceSession && #[trigger]
            stage_after(Stage::ReplaceSession, streaming, has_session, StageEnd::Done) == Stage::Resend && stage_after(
                Stage::Resend,
                streaming,
                has_session,
                StageEnd::Done,
            ) == stage_after(Stage::Send, streaming, has_session, StageEnd::Done) && stage_after(
                Stage::Resend,
                streaming,
                has_session,
                StageEnd::NotFound,
            ) == Stage::Failed,
{
}

/// A stage that fails ends the turn, and a turn that is over stays over.
pub proof fn failures_end_the_turn(stage: Stage, streaming: bool, has_session: bool, end: StageEnd)
    ensures
        !(stage is Finished) ==> stage_after(stage, streaming, has_session, StageEnd::Error) == Stage::Failed,
        !(stage is Finished) && !(stage is Send) ==> stage_after(stage, streaming, has_session, StageEnd::NotFound)
            == Stage::Failed,
        stage_after(Stage::Finished, streaming, has_session, end) == Stage::Finished,
        stage_after(Stage::Failed, streaming, has_session, end) == Stage::Failed,
{
}

// ---------------------------------------------------------------------------
// Failures
// ---------------------------------------------------------------------------

/// The status code decides first: gone means that the model is no longer offered, too many requests that
/// the rate is limited. Without either the name decides.
pub proof fn codes_decide_before_names(name: Seq<char>, code: Option<u16>)
    ensures
        class_of(name, Some(410u16)) is ModelEol,
        class_of(name, Some(429u16)) is RateLimited,
        code != Some(410u16) && code != Some(429u16) ==> class_of("MessageAbortedError"@, code) is Aborted && class_of(
            "ProviderModelNotFoundError"@,
            code,
        ) is ModelEol,
        code != Some(410u16) && code != Some(429u16) && name != "MessageAbortedError"@ && name
            != "ProviderModelNotFoundError"@ ==> class_of(name, code) is Other,
{
    reveal_strlit("MessageAbortedError");
    reveal_strlit("ProviderModelNotFoundError");
    assert("MessageAbortedError"@.len() == 19);
    assert("ProviderModelNotFoundError"@.len() == 26);
}

/// An error is read with its name, its code and its message; without a name it is unknown.
pub proof fn errors_are_read(container: JsonView, error: JsonView, data: JsonView, n: u64)
    requires
        container.get("error"@) == Some(error),
        error.get("data"@) == Some(data),
    ensures
        error_in(container) is Some,
        error.str_at("name"@) is Some ==> error_in(container)->0.name == error.str_at("name"@)->0,
        error.str_at("name"@) is None ==> error_in(container)->0.name == "UnknownError"@,
        data.str_at("message"@) is Some ==> error_in(container)->0.message == data.str_at("message"@)->0,
        data.get("statusCode"@) == Some(JsonView::Number(Some(n))) && n <= 65535 ==> error_in(container)->0.status_code
            == Some(n as u16),
        data.get("statusCode"@) is None ==> error_in(container)->0.status_code is None,
{
}

/// A container without an error has none.
pub proof fn no_error_is_no_error(container: JsonView)
    requires
        container.get("error"@) is None,
    ensures
        error_in(container) is None,
{
}

/// A code is read behind its key and a colon, and only where no more digits follow.
pub proof fn codes_are_read_behind_their_key(key: Seq<char>, code: Seq<char>, rest: Seq<char>)
    requires
        key.len() > 0,
        code.len() > 0,
        ascii_digit(code[0]),
        rest.len() > 0 ==> !ascii_digit(rest[0]),
    ensures
        key_has_code(key + seq![':'] + code + rest, key, code),
{
    let text = key + seq![':'] + code + rest;
    let k = key.len() as int;
    assert(text.subrange(0, k) =~= key);
    assert(occurs_at(text, key, 0));
    assert(first_index(text, key, 0) == Some(0int));
    let after = text.skip(k);
    assert(after =~= seq![':'] + code + rest);
    let t = code + rest;
    assert(after.skip(1) =~= t);
    assert(t[0] == code[0]);
    assert(t.take(code.len() as int) =~= code);
    assert(t.subrange(0, code.len() as int) =~= code);
    assert(value_is(after, code));
}

proof fn first_key(key: Seq<char>, after: Seq<char>, code: Seq<char>)
    requires
        key.len() > 0,
    ensures
        first_index(key + after, key, 0) == Some(0int),
        (key + after).skip(key.len() as int) == after,
        key_has_code(key + after, key, code) == (value_is(after, code) || key_has_code(after, key, code)),
{
    let text = key + after;
    let k = key.len() as int;
    assert(text.subrange(0, k) =~= key);
    assert(occurs_at(text, key, 0));
    assert(text.skip(k) =~= after);
}

/// A code may stand behind a colon, an equals sign or a blank, and a quotation mark or a blank may come
/// before it.
pub proof fn codes_are_written_in_many_ways(key: Seq<char>, code: Seq<char>, rest: Seq<char>)
    requires
        key.len() > 0,
        code.len() > 0,
        ascii_digit(code[0]),
        rest.len() > 0 ==> !ascii_digit(rest[0]),
    ensures
        key_has_code(key + (seq!['='] + code + rest), key, code),
        key_has_code(key + (seq![' '] + code + rest), key, code),
        key_has_code(key + (seq![':', ' '] + code + rest), key, code),
        key_has_code(key + (seq![':', '"'] + code + rest), key, code),
        key_has_code(key + (seq![' ', '=', '\t'] + code + rest), key, code),
{
    let t = code + rest;
    code_in_front(code, rest);
    let a = seq!['='] + code + rest;
    first_key(key, a, code);
    assert(a.skip(1) =~= t);
    separated(a, code, rest);
    let b = seq![' '] + code + rest;
    first_key(key, b, code);
    assert(b.drop_first() =~= t);
    assert(gap_skipped(b) == gap_skipped(t));
    assert(value_is(b, code));
    let c = seq![':', ' '] + code + rest;
    first_key(key, c, code);
    assert(c.skip(1) =~= b);
    separated(c, code, rest);
    let d = seq![':', '"'] + code + rest;
    first_key(key, d, code);
    quoted_codes(d, code, rest);
    let e = seq![' ', '=', '\t'] + code + rest;
    first_key(key, e, code);
    let f = seq!['=', '\t'] + code + rest;
    let g = seq!['\t'] + code + rest;
    assert(e.drop_first() =~= f);
    assert(gap_skipped(f) == f);
    assert(gap_skipped(e) == f);
    assert(f.skip(1) =~= g);
    assert(g.drop_first() =~= t);
    assert(gap_skipped(g) == gap_skipped(t));
    assert(value_is(e, code));
}

proof fn code_in_front(code: Seq<char>, rest: Seq<char>)
    requires
        code.len() > 0,
        ascii_digit(code[0]),
        rest.len() > 0 ==> !ascii_digit(rest[0]),
    ensures
        gap_skipped(code + rest) == code + rest,
        without_lead(code + rest, '"') == code + rest,
        begins(code + rest, code),
        (code + rest).len() == code.len() || !ascii_digit((code + rest)[code.len() as int]),
{
    let t = code + rest;
    assert(t[0] == code[0]);
    assert(t.subrange(0, code.len() as int) =~= code);
}

proof fn separated(after: Seq<char>, code: Seq<char>, rest: Seq<char>)
    requires
        code.len() > 0,
        ascii_digit(code[0]),
        rest.len() > 0 ==> !ascii_digit(rest[0]),
        after.len() > 0,
        after[0] == ':' || after[0] == '=',
        gap_skipped(after.skip(1)) == gap_skipped(code + rest),
    ensures
        value_is(after, code),
{
    code_in_front(code, rest);
    assert(gap_skipped(after) == after);
}

proof fn quoted_codes(after: Seq<char>, code: Seq<char>, rest: Seq<char>)
    requires
        code.len() > 0,
        ascii_digit(code[0]),
        rest.len() > 0 ==> !ascii_digit(rest[0]),
        after == seq![':', '"'] + code + rest,
    ensures
        value_is(after, code),
{
    let q = seq!['"'] + code + rest;
    code_in_front(code, rest);
    assert(after.skip(1) =~= q);
    assert(gap_skipped(after) == after);
    assert(gap_skipped(q) == q);
    assert(q.skip(1) =~= code + rest);
    assert(without_lead(q, '"') == code + rest);
}

/// A longer number is another code, and a number that stands right behind a key is none.
pub proof fn longer_numbers_are_other_codes(key: Seq<char>, code: Seq<char>, rest: Seq<char>)
    requires
        key.len() > 0,
        code.len() > 0,
        ascii_digit(code[0]),
        rest.len() > 0,
        ascii_digit(rest[0]),
        !(has(seq![':'] + code + rest, key)),
        !(has(code, key)),
    ensures
        !key_has_code(key + (seq![':'] + code + rest), key, code),
        !key_has_code(key + code, key, code),
{
    let a = seq![':'] + code + rest;
    first_key(key, a, code);
    no_key_no_code(a, key, code);
    let t = code + rest;
    assert(a.skip(1) =~= t);
    assert(t[0] == code[0]);
    assert(t[code.len() as int] == rest[0]);
    first_key(key, code, code);
    no_key_no_code(code, key, code);
}

/// Where a key has another code, the search goes on behind it.
pub proof fn every_key_is_looked_at(key: Seq<char>, after: Seq<char>, code: Seq<char>)
    requires
        key.len() > 0,
        key_has_code(after, key, code),
    ensures
        key_has_code(key + after, key, code),
{
    first_key(key, after, code);
}

/// An error is told with its name, its code where it has one, and its message where it says something.
pub proof fn errors_are_told_whole(e: UpstreamError, c: u16)
    ensures
        e.status_code is None && e.message@.len() == 0 ==> error_detail(e) == e.name@,
        e.status_code is None && e.message@.len() > 0 ==> error_detail(e) == e.name@ + ": "@ + e.message@,
        e.status_code == Some(c) && e.message@.len() == 0 ==> error_detail(e) == e.name@ + " statusCode="@ + decimal(
            c as nat,
        ),
        e.status_code == Some(c) && e.message@.len() > 0 ==> error_detail(e) == e.name@ + " statusCode="@ + decimal(
            c as nat,
        ) + ": "@ + e.message@,
{
    if e.status_code is None && e.message@.len() == 0 {
        assert(error_detail(e) =~= e.name@);
    } else if e.status_code is None {
        assert(error_detail(e) =~= e.name@ + ": "@ + e.message@);
    } else if e.status_code == Some(c) && e.message@.len() == 0 {
        assert(error_detail(e) =~= e.name@ + " statusCode="@ + decimal(c as nat));
    } else if e.status_code == Some(c) {
        assert(error_detail(e) =~= e.name@ + " statusCode="@ + decimal(c as nat) + ": "@ + e.message@);
    }
}

/// A session is gone where the server answers so, and with no other answer.
pub proof fn gone_sessions_are_replaced(stderr: String, code: Option<i32>, streaming: bool, has_session: bool)
    ensures
        not_found(GatewayError::AgentFailed { code, stderr }) <==> code == Some(404i32),
        not_found(GatewayError::AgentFailed { code: Some(404i32), stderr }),
        stage_after(Stage::Send, streaming, has_session, StageEnd::NotFound) == Stage::ReplaceSession,
{
}

/// A line names its session, whatever else stands on it.
pub proof fn lines_name_their_session(line: Seq<char>, v: JsonView)
    requires
        parsed_json(trimmed(line)) == Some(v),
        trimmed(line).len() > 0,
    ensures
        session_on(line) == v.str_at("sessionID"@),
        event_on(line) == event_in(v),
{
}

/// A line that cannot be read says nothing.
pub proof fn unreadable_lines_say_nothing(line: Seq<char>)
    requires
        parsed_json(trimmed(line)) is None,
    ensures
        session_on(line) is None,
        event_on(line) is None,
{
}

/// Whatever is no text is shown as it comes, and leaves the answer as it is; a session that is named is
/// kept.
pub proof fn steps_pass_the_filter(a: AnswerView, session: Option<Seq<char>>, e: EventView)
    requires
        !(e is Text),
    ensures
        event_shown(a, Some(e)) == Some(e),
        answer_after(a, session, Some(e)).full == a.full,
        answer_after(a, session, Some(e)).filter == a.filter,
        session is Some ==> answer_after(a, session, Some(e)).session_id == session,
        session is None ==> answer_after(a, session, Some(e)).session_id == a.session_id,
        event_shown(a, None) is None,
{
}

/// What is shown of a text is what its answer gains.
pub proof fn shown_text_is_kept(a: AnswerView, session: Option<Seq<char>>, t: Seq<char>)
    ensures
        match event_shown(a, Some(EventView::Text(t))) {
            Some(e) => e is Text && e->Text_0.len() > 0 && answer_after(
                a,
                session,
                Some(EventView::Text(t)),
            ).full.len() >= a.full.len() + e->Text_0.len() && answer_after(
                a,
                session,
                Some(EventView::Text(t)),
            ).full.skip(
                answer_after(a, session, Some(EventView::Text(t))).full.len() - e->Text_0.len(),
            ) == e->Text_0,
            None => answer_after(a, session, Some(EventView::Text(t))).full == a.full,
        },
{
    let f = filtered(a.filter.pending + t, a.filter.inside);
    if f.out.len() > 0 {
        let full = with_line(a.full, f.out);
        assert(full.skip(full.len() - f.out.len()) =~= f.out);
    }
}

/// No code is read where its key does not stand.
pub proof fn no_key_no_code(text: Seq<char>, key: Seq<char>, code: Seq<char>)
    requires
        !(has(text, key)),
    ensures
        !key_has_code(text, key, code),
{
    first_index_is_first(text, key, 0);
    match first_index(text, key, 0) {
        Some(i) => {
            assert(occurs_at(text, key, i));
        },
        None => {},
    }
}

/// Texts are classed by what they say: a model at its end, a rate that is limited, a model that is not
/// known.
pub proof fn texts_are_classed_by_what_they_say(text: Seq<char>)
    ensures
        has(text, "end of life"@) ==> text_class(text) == Some(UpstreamFailure::ModelEol),
        has(text, "RESOURCE_EXHAUSTED"@) && !(has(text, "end of life"@)) && !status_signal(text, 410) ==> text_class(text)
            == Some(UpstreamFailure::RateLimited),
        has(text, "Model not found"@) && !(has(text, "RESOURCE_EXHAUSTED"@)) && !status_signal(text, 429) ==> text_class(text)
            == Some(UpstreamFailure::ModelEol),
        has(text, "ProviderModelNotFoundError"@) && !(has(text, "RESOURCE_EXHAUSTED"@)) && !status_signal(text, 429)
            ==> text_class(text) == Some(UpstreamFailure::ModelEol),
        !status_signal(text, 410) && !status_signal(text, 429) && !(has(text, "end of life"@)) && !(has(
            text,
            "RESOURCE_EXHAUSTED"@,
        )) && !(has(text, "ProviderModelNotFoundError"@)) && !(has(text, "Model not found"@)) ==> text_class(text) is None,
{
}

proof fn keys_hold_their_word()
    ensures
        has("statusCode"@, "status"@),
        has("\"status\""@, "status"@),
        has("\"statusCode\""@, "status"@),
{
    reveal_strlit("status");
    reveal_strlit("statusCode");
    reveal_strlit("\"status\"");
    reveal_strlit("\"statusCode\"");
    assert("statusCode"@.subrange(0, 6) =~= "status"@);
    assert(occurs_at("statusCode"@, "status"@, 0));
    assert("\"status\""@.subrange(1, 7) =~= "status"@);
    assert(occurs_at("\"status\""@, "status"@, 1));
    assert("\"statusCode\""@.subrange(1, 7) =~= "status"@);
    assert(occurs_at("\"statusCode\""@, "status"@, 1));
}

proof fn no_word_no_key(text: Seq<char>, key: Seq<char>, code: Seq<char>)
    requires
        !(has(text, "status"@)),
        has(key, "status"@),
    ensures
        !key_has_code(text, key, code),
{
    if has(text, key) {
        inner_parts_are_found(text, key, "status"@);
    }
    no_key_no_code(text, key, code);
}

/// A text that does not speak of a status signals none.
pub proof fn silent_texts_signal_nothing(text: Seq<char>, code: nat)
    requires
        !(has(text, "status"@)),
    ensures
        !status_signal(text, code),
{
    keys_hold_their_word();
    no_key_no_code(text, "status"@, decimal(code));
    no_word_no_key(text, "statusCode"@, decimal(code));
    no_word_no_key(text, "\"status\""@, decimal(code));
    no_word_no_key(text, "\"statusCode\""@, decimal(code));
}

} // verus!
