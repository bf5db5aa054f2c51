//! What a turn is for: every step sees what is remembered and what was said before it, the steps are
//! asked in order, the last words are the answer, and what was said is remembered.
use crate::gateway::prompt::{composed, memory_lines};
use crate::memory::candidates::ScoredView;
use crate::memory::rows::{conversation_noted, with_items};
use crate::memory::scope::{parsed_scope, scope_text};
use crate::memory::store::StoreView;
use crate::orchestrator::role::{card_of, name_of};
use crate::orchestrator::router::known_skill;
use crate::orchestrator::{context_of, outcome_lines, OutcomeView};
use crate::runtime::persona::{answer_directive, schedule_hint, skill_block, skilled_text};
use crate::runtime::turn::{
    last_said, next, observed, repair_text, replied, step_prompt, step_skill, turn_items, turn_key, turn_remembered, MoveView,
    ObservedView, PlanView, ProgressView, NOTHING_SAID,
};
use crate::text::{blank, has, inner_parts_are_found, longer_texts_hold_as_much, parts_are_found};
use vstd::prelude::*;

verus! {

// ---------------------------------------------------------------------------
// What a step sees
// ---------------------------------------------------------------------------

/// Every line of what is remembered stands in the list of lines.
proof fn memories_are_listed(hits: Seq<ScoredView>, k: int)
    requires
        0 <= k < hits.len(),
    ensures
        has(memory_lines(hits), "- ("@ + hits[k].scope + ") "@ + hits[k].text + "\n"@),
    decreases hits.len(),
{
    let d = hits.drop_last();
    let l = hits.last();
    let line = "- ("@ + l.scope + ") "@ + l.text + "\n"@;
    let none = Seq::<char>::empty();
    assert(memory_lines(hits) =~= memory_lines(d) + line + none);
    if k == hits.len() - 1 {
        parts_are_found(memory_lines(d), line, none);
    } else {
        memories_are_listed(d, k);
        assert(memory_lines(hits) =~= none + memory_lines(d) + line);
        longer_texts_hold_as_much(none, memory_lines(d), line, "- ("@ + hits[k].scope + ") "@ + hits[k].text + "\n"@);
    }
}

proof fn outcomes_are_listed(prior: Seq<OutcomeView>, k: int)
    requires
        0 <= k < prior.len(),
    ensures
        has(outcome_lines(prior), name_of(prior[k].role) + ": "@ + prior[k].output + "\n"@),
    decreases prior.len(),
{
    let d = prior.drop_last();
    let l = prior.last();
    let line = name_of(l.role) + ": "@ + l.output + "\n"@;
    let none = Seq::<char>::empty();
    assert(outcome_lines(prior) =~= outcome_lines(d) + line + none);
    if k == prior.len() - 1 {
        parts_are_found(outcome_lines(d), line, none);
    } else {
        outcomes_are_listed(d, k);
        assert(outcome_lines(prior) =~= none + outcome_lines(d) + line);
        longer_texts_hold_as_much(none, outcome_lines(d), line, name_of(prior[k].role) + ": "@ + prior[k].output + "\n"@);
    }
}

proof fn composed_holds(hits: Seq<ScoredView>, input: Seq<char>, k: int)
    ensures
        has(composed(hits, input), input),
        0 <= k < hits.len() ==> has(composed(hits, input), "- ("@ + hits[k].scope + ") "@ + hits[k].text + "\n"@),
        0 <= k < hits.len() ==> has(composed(hits, input), hits[k].text),
{
    let none = Seq::<char>::empty();
    let all = composed(hits, input);
    if hits.len() == 0 {
        assert(all =~= none + input + none);
        parts_are_found(none, input, none);
    } else {
        let lead = "[相關記憶]\n"@;
        let mid = "\n[使用者輸入]\n"@;
        assert(all =~= lead + memory_lines(hits) + (mid + input));
        assert(all =~= (lead + memory_lines(hits) + mid) + input + none);
        parts_are_found(lead + memory_lines(hits) + mid, input, none);
        if 0 <= k < hits.len() {
            let line = "- ("@ + hits[k].scope + ") "@ + hits[k].text + "\n"@;
            memories_are_listed(hits, k);
            longer_texts_hold_as_much(lead, memory_lines(hits), mid + input, line);
            parts_are_found("- ("@ + hits[k].scope + ") "@, hits[k].text, "\n"@);
            assert("- ("@ + hits[k].scope + ") "@ + hits[k].text + "\n"@ =~= line);
            inner_parts_are_found(all, line, hits[k].text);
        }
    }
}

/// What stands in the input with its context stands in the prompt of a step.
proof fn prompt_holds(p: PlanView, prior: Seq<OutcomeView>, i: int, inner: Seq<char>)
    requires
        has(composed(p.hits, p.input + context_of(prior)), inner),
    ensures
        has(step_prompt(p, prior, i), inner),
{
    let body = composed(p.hits, p.input + context_of(prior));
    let none = Seq::<char>::empty();
    let block = match step_skill(p.steps[i]) {
        Some(n) => skill_block(n, p.skill_root),
        None => none,
    };
    let head = card_of(p.steps[i].role) + block + "\n\n"@;
    let tail = if i + 1 == p.steps.len() {
        "\n\n"@ + answer_directive() + "\n\n"@ + schedule_hint(p.scope, p.bin)
    } else {
        none
    };
    assert(step_prompt(p, prior, i) =~= head + body + tail);
    longer_texts_hold_as_much(head, body, tail, inner);
}

/// Every step of a turn, the last one too, is put to the agent with everything that was recalled,
/// with the question, and with what each step before it has said and who said it.
pub proof fn every_step_sees_what_is_known(p: PlanView, g: ProgressView)
    requires
        g.prior.len() < p.steps.len(),
    ensures
        next(p, g) is Step,
        has(next(p, g)->Step_request.prompt, p.input),
        forall|k: int| 0 <= k < p.hits.len() ==> has(next(p, g)->Step_request.prompt, (#[trigger] p.hits[k]).text),
        forall|k: int|
            0 <= k < p.hits.len() ==> has(
                next(p, g)->Step_request.prompt,
                "- ("@ + (#[trigger] p.hits[k]).scope + ") "@ + p.hits[k].text + "\n"@,
            ),
        forall|j: int|
            0 <= j < g.prior.len() ==> has(
                next(p, g)->Step_request.prompt,
                name_of((#[trigger] g.prior[j]).role) + ": "@ + g.prior[j].output + "\n"@,
            ),
{
    let i = g.prior.len() as int;
    let task = p.input + context_of(g.prior);
    let body = composed(p.hits, task);
    let none = Seq::<char>::empty();
    let prompt = next(p, g)->Step_request.prompt;
    assert(prompt == step_prompt(p, g.prior, i));
    composed_holds(p.hits, task, 0);
    assert(task =~= none + p.input + context_of(g.prior));
    parts_are_found(none, p.input, context_of(g.prior));
    inner_parts_are_found(body, task, p.input);
    prompt_holds(p, g.prior, i, p.input);
    assert forall|k: int| 0 <= k < p.hits.len() implies has(prompt, (#[trigger] p.hits[k]).text) && has(
        prompt,
        "- ("@ + p.hits[k].scope + ") "@ + p.hits[k].text + "\n"@,
    ) by {
        composed_holds(p.hits, task, k);
        prompt_holds(p, g.prior, i, p.hits[k].text);
        prompt_holds(p, g.prior, i, "- ("@ + p.hits[k].scope + ") "@ + p.hits[k].text + "\n"@);
    }
    assert forall|j: int| 0 <= j < g.prior.len() implies has(
        prompt,
        name_of((#[trigger] g.prior[j]).role) + ": "@ + g.prior[j].output + "\n"@,
    ) by {
        let line = name_of(g.prior[j].role) + ": "@ + g.prior[j].output + "\n"@;
        outcomes_are_listed(g.prior, j);
        assert(task =~= p.input + context_of(g.prior) + none);
        longer_texts_hold_as_much(p.input, context_of(g.prior), none, line);
        inner_parts_are_found(body, task, line);
        prompt_holds(p, g.prior, i, line);
    }
}

proof fn skills_are_named(name: Seq<char>, root: Seq<char>)
    ensures
        has(skill_block(name, root), root + "/"@ + name + "/SKILL.md"@),
        has(skill_block(name, root), "`"@ + name + "`"@),
{
    let a = "\n\n[技能規範指引]\n你必須遵循 `"@;
    let b = "` 的流程。請先閱讀並遵循專案中的技能規範文件：\n路徑："@;
    let path = root + "/"@ + name + "/SKILL.md"@;
    let quoted = "`"@ + name + "`"@;
    let none = Seq::<char>::empty();
    let block = skill_block(name, root);
    assert(block =~= (a + name + b) + path + none);
    parts_are_found(a + name + b, path, none);
    reveal_strlit("\n\n[技能規範指引]\n你必須遵循 `");
    reveal_strlit("` 的流程。請先閱讀並遵循專案中的技能規範文件：\n路徑：");
    reveal_strlit("`");
    assert(block =~= a.drop_last() + quoted + (b.drop_first() + path));
    parts_are_found(a.drop_last(), quoted, b.drop_first() + path);
}

/// A step is put to the agent as the role that was planned for it: the prompt starts with the card of
/// that role, and a known skill is named with the place of its document.
pub proof fn every_step_has_its_role(p: PlanView, g: ProgressView)
    requires
        g.prior.len() < p.steps.len(),
    ensures
        ({
            let step = p.steps[g.prior.len() as int];
            let role = next(p, g)->Step_role;
            let prompt = next(p, g)->Step_request.prompt;
            &&& role == step.role
            &&& prompt.len() >= card_of(role).len()
            &&& prompt.take(card_of(role).len() as int) == card_of(role)
            &&& step.skill is Some && known_skill(step.skill->0) ==> has(
                prompt,
                p.skill_root + "/"@ + step.skill->0 + "/SKILL.md"@,
            ) && has(prompt, "`"@ + step.skill->0 + "`"@)
        }),
{
    let i = g.prior.len() as int;
    let step = p.steps[i];
    let card = card_of(step.role);
    let none = Seq::<char>::empty();
    let body = composed(p.hits, p.input + context_of(g.prior));
    let prompt = next(p, g)->Step_request.prompt;
    let tail = if i + 1 == p.steps.len() {
        "\n\n"@ + answer_directive() + "\n\n"@ + schedule_hint(p.scope, p.bin)
    } else {
        none
    };
    let block = match step_skill(step) {
        Some(n) => skill_block(n, p.skill_root),
        None => none,
    };
    let rest = "\n\n"@ + body + tail;
    assert(prompt == step_prompt(p, g.prior, i));
    assert(prompt =~= card + block + rest);
    assert(prompt.take(card.len() as int) =~= card);
    if step.skill is Some && known_skill(step.skill->0) {
        let n = step.skill->0;
        skills_are_named(n, p.skill_root);
        longer_texts_hold_as_much(card, block, rest, p.skill_root + "/"@ + n + "/SKILL.md"@);
        longer_texts_hold_as_much(card, block, rest, "`"@ + n + "`"@);
    }
}

/// A skill that is not known changes nothing of a step.
pub proof fn unknown_skills_are_left_out(p: PlanView, q: PlanView, g: ProgressView)
    requires
        g.prior.len() < p.steps.len(),
        q == (PlanView { steps: q.steps, ..p }),
        q.steps.len() == p.steps.len(),
        q.steps[g.prior.len() as int].role == p.steps[g.prior.len() as int].role,
        q.steps[g.prior.len() as int].skill is None,
        p.steps[g.prior.len() as int].skill is Some,
        !known_skill(p.steps[g.prior.len() as int].skill->0),
    ensures
        next(q, g) == next(p, g),
{
}

/// A step on its own has the card of its role and what is known, and nothing else; only the last one
/// is told more: to answer in words, and that it can make schedules in the scope of the turn.
pub proof fn only_the_last_step_is_told_more(p: PlanView, q: PlanView, g: ProgressView)
    requires
        g.prior.len() + 1 == p.steps.len(),
        q.steps.len() > p.steps.len(),
        q == (PlanView { steps: q.steps, ..p }),
        q.steps[g.prior.len() as int] == p.steps[g.prior.len() as int],
    ensures
        next(p, g)->Step_request.prompt == next(q, g)->Step_request.prompt + "\n\n"@ + answer_directive() + "\n\n"@
            + schedule_hint(p.scope, p.bin),
        has(next(p, g)->Step_request.prompt, "--scope \""@ + p.scope + "\""@),
        p.hits.len() == 0 && g.prior.len() == 0 && p.steps[0].skill is None ==> next(q, g)->Step_request.prompt == card_of(
            p.steps[0].role,
        ) + "\n\n"@ + p.input,
{
    let i = g.prior.len() as int;
    let base = skilled_text(
        p.steps[i].role,
        step_skill(p.steps[i]),
        p.skill_root,
        p.hits,
        p.input + context_of(g.prior),
    );
    let none = Seq::<char>::empty();
    let prompt = next(p, g)->Step_request.prompt;
    if p.hits.len() == 0 && g.prior.len() == 0 && p.steps[0].skill is None {
        assert(p.input + none =~= p.input);
        assert(next(q, g)->Step_request.prompt =~= card_of(p.steps[0].role) + "\n\n"@ + p.input);
    }
    let hint = schedule_hint(p.scope, p.bin);
    let part = "--scope \""@ + p.scope + "\""@;
    scope_is_hinted(p.scope, p.bin);
    assert(prompt =~= (base + "\n\n"@ + answer_directive() + "\n\n"@) + hint + none);
    longer_texts_hold_as_much(base + "\n\n"@ + answer_directive() + "\n\n"@, hint, none, part);
}

proof fn scope_is_hinted(scope: Seq<char>, bin: Seq<char>)
    ensures
        has(schedule_hint(scope, bin), "--scope \""@ + scope + "\""@),
{
    let hint = schedule_hint(scope, bin);
    let part = "--scope \""@ + scope + "\""@;
    let a = "[排程能力]\n你具備為使用者建立與管理定時排程（cron）的真實能力。當使用者要求「定時、每天、每隔、提醒、排程、固定時間執行」之類任務時，請直接在終端機執行下列指令完成設定——這是可用的內建功能，不要拒絕，也不要只用文字描述而不執行：\n- 新增定時對話：`"@;
    let b = " schedule add-turn --name \"<名稱>\" --cron \"<分 時 日 月 週>\" --scope \""@;
    let c = "\" --prompt \"<到時要執行的提示詞>\"`\n- 列出所有排程：`"@;
    reveal_strlit(" schedule add-turn --name \"<名稱>\" --cron \"<分 時 日 月 週>\" --scope \"");
    reveal_strlit("\" --prompt \"<到時要執行的提示詞>\"`\n- 列出所有排程：`");
    reveal_strlit("--scope \"");
    reveal_strlit("\"");
    let head = b.take(b.len() - 9);
    assert(b =~= head + "--scope \""@);
    let rest = bin + " schedule list`\n- 立即觸發一次：`"@ + bin
        + " schedule trigger --id <id>`\n- 停用／啟用／刪除：`"@ + bin
        + " schedule disable|enable|rm --id <id>`\n規則：cron 為標準 5 欄位（分 時 日 月 週）。除非使用者另外指定 scope，否則一律沿用上面的 `--scope`。建立完成後，用一句話回報排程名稱、cron 設定與用途即可。"@;
    assert(c =~= "\""@ + c.drop_first());
    assert(hint =~= (a + bin + head) + part + (c.drop_first() + rest));
    parts_are_found(a + bin + head, part, c.drop_first() + rest);
}

/// The files, the wish to think aloud, and for the last step the session and the model go to the
/// agent as the turn was given them.
pub proof fn requests_carry_what_was_given(p: PlanView, g: ProgressView)
    requires
        g.prior.len() < p.steps.len(),
    ensures
        ({
            let q = next(p, g)->Step_request;
            let last = g.prior.len() == p.steps.len() - 1;
            &&& q.attachments == p.attachments
            &&& q.thinking == p.thinking
            &&& q.agent is None
            &&& q.tool_overrides.len() == 0
            &&& last ==> q.session_id == p.stored && q.model == p.model && !next(p, g)->ephemeral
            &&& !last ==> q.session_id is None && q.model is None && next(p, g)->ephemeral
        }),
{
}

// ---------------------------------------------------------------------------
// The answer
// ---------------------------------------------------------------------------

proof fn last_said_is_last(prior: Seq<OutcomeView>)
    ensures
        match last_said(prior) {
            Some(o) => exists|j: int|
                #![trigger prior[j]]
                0 <= j < prior.len() && prior[j] == o && !blank(prior[j].output) && forall|k: int|
                    j < k < prior.len() ==> blank((#[trigger] prior[k]).output),
            None => forall|k: int| 0 <= k < prior.len() ==> blank((#[trigger] prior[k]).output),
        },
    decreases prior.len(),
{
    if prior.len() > 0 {
        let d = prior.drop_last();
        last_said_is_last(d);
        let n = prior.len() - 1;
        if !blank(prior.last().output) {
            assert(prior[n] == prior.last());
        } else {
            match last_said(d) {
                Some(o) => {
                    let j = choose|j: int|
                        #![trigger d[j]]
                        0 <= j < d.len() && d[j] == o && !blank(d[j].output) && forall|k: int|
                            j < k < d.len() ==> blank((#[trigger] d[k]).output);
                    assert(prior[j] == o);
                    assert forall|k: int| j < k < prior.len() implies blank((#[trigger] prior[k]).output) by {
                        if k < d.len() {
                            assert(blank(d[k].output));
                        }
                    }
                },
                None => {
                    assert forall|k: int| 0 <= k < prior.len() implies blank((#[trigger] prior[k]).output) by {
                        if k < d.len() {
                            assert(blank(d[k].output));
                        }
                    }
                },
            }
        }
    }
}

/// A turn whose steps have all been asked answers with the words of the last step that said anything,
/// whatever the steps behind it left blank, and in the name of that step.
pub proof fn the_last_words_are_the_answer(p: PlanView, g: ProgressView, j: int)
    requires
        g.prior.len() >= p.steps.len(),
        0 <= j < g.prior.len(),
        !blank(g.prior[j].output),
        forall|k: int| j < k < g.prior.len() ==> blank((#[trigger] g.prior[k]).output),
    ensures
        next(p, g) == (MoveView::Done { answer: g.prior[j] }),
{
    last_said_is_last(g.prior);
    match last_said(g.prior) {
        Some(o) => {
            let i = choose|i: int|
                #![trigger g.prior[i]]
                0 <= i < g.prior.len() && g.prior[i] == o && !blank(g.prior[i].output) && forall|k: int|
                    i < k < g.prior.len() ==> blank((#[trigger] g.prior[k]).output);
            if i < j {
                assert(blank(g.prior[j].output));
            } else if j < i {
                assert(blank(g.prior[i].output));
            }
        },
        None => {
            assert(blank(g.prior[j].output));
        },
    }
}

/// A turn in which no step said anything asks once more, in the session that the last step named, with
/// all that the last step was told; what is said then is the answer, and where nothing is, the user
/// is told that.
pub proof fn silent_turns_ask_once_more(p: PlanView, g: ProgressView)
    requires
        p.steps.len() > 0,
        g.prior.len() == p.steps.len(),
        forall|k: int| 0 <= k < g.prior.len() ==> blank((#[trigger] g.prior[k]).output),
    ensures
        ({
            let before = ProgressView { prior: g.prior.take(p.steps.len() - 1), ..g };
            let asked = next(p, before)->Step_request;
            match g.repair {
                None => {
                    &&& next(p, g) is Repair
                    &&& next(p, g)->Repair_request.prompt.len() > asked.prompt.len()
                    &&& next(p, g)->Repair_request.prompt.take(asked.prompt.len() as int) == asked.prompt
                    &&& next(p, g)->Repair_request.attachments == p.attachments
                    &&& next(p, g)->Repair_request.model == p.model
                    &&& next(p, g)->Repair_request.thinking == p.thinking
                    &&& g.captured is Some ==> next(p, g)->Repair_request.session_id == g.captured
                    &&& g.captured is None ==> next(p, g)->Repair_request.session_id == p.stored
                },
                Some(t) => {
                    &&& next(p, g) is Done
                    &&& next(p, g)->answer.role == p.steps.last().role
                    &&& !blank(t) ==> next(p, g)->answer.output == t
                    &&& blank(t) ==> next(p, g)->answer.output == NOTHING_SAID@
                },
            }
        }),
{
    last_said_is_last(g.prior);
    let n = p.steps.len() as int;
    if let Some(o) = last_said(g.prior) {
        let i = choose|i: int|
            #![trigger g.prior[i]]
            0 <= i < g.prior.len() && g.prior[i] == o && !blank(g.prior[i].output) && forall|k: int|
                i < k < g.prior.len() ==> blank((#[trigger] g.prior[k]).output);
        assert(blank(g.prior[i].output));
    }
    let asked = step_prompt(p, g.prior.take(n - 1), n - 1);
    reveal_strlit("\n\n[修復回覆]\n");
    assert(repair_text(asked).take(asked.len() as int) =~= asked);
}

// ---------------------------------------------------------------------------
// A whole turn
// ---------------------------------------------------------------------------

/// A reply of the agent: its words and the session it names.
pub struct ReplyView {
    pub text: Seq<char>,
    pub session: Option<Seq<char>>,
}

/// How far a turn is after these replies.
pub open spec fn after_replies(p: PlanView, replies: Seq<ReplyView>) -> ProgressView
    decreases replies.len(),
{
    if replies.len() == 0 {
        ProgressView { prior: Seq::empty(), captured: None, repair: None }
    } else {
        replied(p, after_replies(p, replies.drop_last()), replies.last().text, replies.last().session)
    }
}

/// Each planned step is asked once and in order, the words of each are kept under its role, and the
/// session that the last step names, and no other, is the one the turn goes on in.
pub proof fn steps_are_asked_in_order(p: PlanView, replies: Seq<ReplyView>)
    requires
        replies.len() <= p.steps.len(),
    ensures
        after_replies(p, replies).prior.len() == replies.len(),
        forall|j: int|
            0 <= j < replies.len() ==> (#[trigger] after_replies(p, replies).prior[j]).role == p.steps[j].role
                && after_replies(p, replies).prior[j].output == replies[j].text,
        after_replies(p, replies).repair is None,
        after_replies(p, replies).captured == (if replies.len() > 0 && replies.len() == p.steps.len() {
            replies.last().session
        } else {
            None
        }),
        replies.len() < p.steps.len() ==> next(p, after_replies(p, replies)) is Step,
    decreases replies.len(),
{
    if replies.len() > 0 {
        let d = replies.drop_last();
        steps_are_asked_in_order(p, d);
        let before = after_replies(p, d);
        let now = after_replies(p, replies);
        assert forall|j: int| 0 <= j < replies.len() implies (#[trigger] now.prior[j]).role == p.steps[j].role
            && now.prior[j].output == replies[j].text by {
            if j < d.len() {
                assert(now.prior[j] == before.prior[j]);
                assert(d[j] == replies[j]);
            }
        }
    }
}

/// The answer of a whole turn: the words of the last planned step where it says anything.
pub proof fn a_turn_answers_with_its_last_step(p: PlanView, replies: Seq<ReplyView>)
    requires
        p.steps.len() > 0,
        replies.len() == p.steps.len(),
        !blank(replies.last().text),
    ensures
        next(p, after_replies(p, replies)) == (MoveView::Done {
            answer: OutcomeView { role: p.steps.last().role, output: replies.last().text },
        }),
{
    steps_are_asked_in_order(p, replies);
    let g = after_replies(p, replies);
    let n = p.steps.len() - 1;
    assert(g.prior[n].output == replies[n].text);
    the_last_words_are_the_answer(p, g, n);
}

/// Those who watch a turn see what each helping step says, with its role and its skill, and never a
/// blank text or the words of the last step.
pub proof fn watchers_see_the_helpers(p: PlanView, g: ProgressView, text: Seq<char>)
    ensures
        g.prior.len() + 1 < p.steps.len() && !blank(text) ==> observed(p, g, text) == Some(
            ObservedView {
                role: p.steps[g.prior.len() as int].role,
                skill_name: p.steps[g.prior.len() as int].skill,
                output: text,
            },
        ),
        blank(text) || g.prior.len() + 1 >= p.steps.len() ==> observed(p, g, text) is None,
{
}

// ---------------------------------------------------------------------------
// What is remembered
// ---------------------------------------------------------------------------

/// The question and the answer of a turn are remembered in its scope and under its session, as events
/// of that moment, unless something is remembered under the same keys already; and nothing that was
/// remembered before is lost.
pub proof fn what_was_said_is_remembered(s: StoreView, p: PlanView, g: ProgressView, answer: Seq<char>, now: i64)
    requires
        s.wf(),
        s.next_id + 2 <= i64::MAX,
        parsed_scope(p.scope) is Some,
        forall|k: int|
            0 <= k < s.memories.len() ==> (#[trigger] s.memories[k]).dedupe_key != turn_items(p, g, answer)[0].dedupe_key
                && s.memories[k].dedupe_key != turn_items(p, g, answer)[1].dedupe_key,
    ensures
        ({
            let t = turn_remembered(s, p, g, answer, now).memories;
            let n = s.memories.len() as int;
            let session = match g.captured {
                Some(c) => Some(c),
                None => p.stored,
            };
            &&& t.len() == n + 2
            &&& t.take(n) == s.memories
            &&& t[n].text == "User: "@ + p.input
            &&& t[n + 1].text == "Assistant: "@ + answer
            &&& forall|k: int|
                n <= k < n + 2 ==> {
                    &&& (#[trigger] t[k]).kind is Event
                    &&& t[k].scope == scope_text(parsed_scope(p.scope)->0)
                    &&& t[k].session_id == session
                    &&& t[k].created_at == now
                    &&& t[k].recall_count == 0
                    &&& t[k].consolidated_into is None
                    &&& t[k].word is None
                }
        }),
{
    let items = turn_items(p, g, answer);
    let session = match g.captured {
        Some(c) => Some(c),
        None => p.stored,
    };
    let scope = scope_text(parsed_scope(p.scope)->0);
    let start = conversation_noted(s, session, scope, now);
    let one = with_items(start, session, scope, items.take(1), now);
    let two = with_items(start, session, scope, items, now);
    let key = items[0].dedupe_key->0;
    reveal_strlit(":user");
    reveal_strlit(":assistant");
    assert(items[0].dedupe_key->0.last() == 'r');
    assert(items[1].dedupe_key->0.last() == 't');
    assert(items.drop_last() =~= items.take(1));
    assert(items.take(1).drop_last() =~= Seq::empty());
    assert(items.take(1).last() == items[0]);
    assert(with_items(start, session, scope, items.take(1).drop_last(), now) == start);
    crate::memory::rows::unknown_keys_are_free(start.memories, items[0].dedupe_key);
    assert(one.memories.len() == s.memories.len() + 1);
    assert forall|k: int| 0 <= k < one.memories.len() implies (#[trigger] one.memories[k]).dedupe_key
        != items[1].dedupe_key by {
        if k < s.memories.len() {
            assert(one.memories[k] == s.memories[k]);
        }
    }
    crate::memory::rows::unknown_keys_are_free(one.memories, items[1].dedupe_key);
    assert(two.memories.take(s.memories.len() as int) =~= s.memories);
}

/// What is remembered of two turns in different sessions is kept apart, and so are the question and
/// the answer of one turn.
pub proof fn turns_are_remembered_apart(
    p: PlanView,
    g: ProgressView,
    q: PlanView,
    h: ProgressView,
    a: Seq<char>,
    b: Seq<char>,
)
    requires
        g.captured is Some,
        h.captured is Some,
    ensures
        turn_items(p, g, a)[0].dedupe_key != turn_items(p, g, a)[1].dedupe_key,
        g.captured != h.captured ==> turn_items(p, g, a)[0].dedupe_key != turn_items(q, h, b)[0].dedupe_key
            && turn_items(p, g, a)[1].dedupe_key != turn_items(q, h, b)[1].dedupe_key,
{
    reveal_strlit("runtime:");
    reveal_strlit(":user");
    reveal_strlit(":assistant");
    let x = turn_items(p, g, a);
    let y = turn_items(q, h, b);
    assert(x[0].dedupe_key->0.last() == 'r');
    assert(x[1].dedupe_key->0.last() == 't');
    let c = g.captured->0;
    let d = h.captured->0;
    let k0 = x[0].dedupe_key->0;
    let l0 = y[0].dedupe_key->0;
    let k1 = x[1].dedupe_key->0;
    let l1 = y[1].dedupe_key->0;
    assert(k0.subrange(8, k0.len() - 5) =~= c);
    assert(l0.subrange(8, l0.len() - 5) =~= d);
    assert(k1.subrange(8, k1.len() - 10) =~= c);
    assert(l1.subrange(8, l1.len() - 10) =~= d);
}

/// The two sides of a turn are kept under keys of their own; where there is no session, turns of one scope
/// share their keys only where the same was asked, and a session keeps its keys.
pub proof fn turns_are_kept_under_their_own_keys(
    p: PlanView,
    g: ProgressView,
    q: PlanView,
    h: ProgressView,
    a: Seq<char>,
    b: Seq<char>,
)
    requires
        p.scope == q.scope,
    ensures
        turn_items(p, g, a)[0].dedupe_key is Some && turn_items(p, g, a)[1].dedupe_key is Some,
        turn_items(p, g, a)[0].dedupe_key != turn_items(p, g, a)[1].dedupe_key,
        g.captured is None && p.stored is None && h.captured is None && q.stored is None && turn_items(
            p,
            g,
            a,
        )[0].dedupe_key == turn_items(q, h, b)[0].dedupe_key ==> p.input == q.input,
        g.captured is Some && g.captured == h.captured ==> turn_items(p, g, a)[0].dedupe_key == turn_items(
            q,
            h,
            b,
        )[0].dedupe_key,
{
    let k = turn_key(p, g);
    let user = "runtime:"@ + k + ":user"@;
    let other = "runtime:"@ + k + ":assistant"@;
    reveal_strlit(":user");
    reveal_strlit(":assistant");
    assert(":user"@.len() == 5);
    assert(":assistant"@.len() == 10);
    assert(user.len() != other.len());
    let j = turn_key(q, h);
    let theirs = "runtime:"@ + j + ":user"@;
    if g.captured is None && p.stored is None && h.captured is None && q.stored is None && user == theirs {
        let n = "runtime:"@.len() as int;
        assert(user.len() == theirs.len());
        assert(k.len() == j.len());
        assert(user.subrange(n, n + k.len()) =~= k);
        assert(theirs.subrange(n, n + j.len()) =~= j);
        let front = "scope:"@ + p.scope + ":input:"@;
        assert(k =~= front + p.input);
        assert(j =~= front + q.input);
        assert(k.skip(front.len() as int) =~= p.input);
        assert(j.skip(front.len() as int) =~= q.input);
    }
}

} // verus!
