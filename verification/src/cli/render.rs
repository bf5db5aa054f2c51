//! Events of the agent at a terminal: the answer on one stream, what it does on the other.
use crate::gateway::stream::{questions_of, EventView, QuestionInfo, QuestionView, StreamEvent};
use crate::text::{blank, chars_of, is_blank, lines, split_lines, str_trim, texts, trimmed};
use vstd::prelude::*;

verus! {

/// What was written to the two streams. The answer alone goes to the first, so that it can be
/// passed on.
#[derive(Debug, Clone, PartialEq, Eq)]
pub struct StreamRenderer {
    pub out: String,
    pub err: String,
}

/// The answer in an event.
pub open spec fn answer_in(e: EventView) -> Seq<char> {
    match e {
        EventView::Text(t) => t,
        _ => Seq::empty(),
    }
}

/// The lines of a question, set in.
pub open spec fn set_in(list: Seq<Seq<char>>) -> Seq<char>
    decreases list.len(),
{
    if list.len() == 0 {
        Seq::empty()
    } else {
        set_in(list.drop_last()) + "     "@ + list.last() + "\n"@
    }
}

/// How questions are shown.
pub open spec fn questions_shown(q: Seq<QuestionView>) -> Seq<char>
    decreases q.len(),
{
    if q.len() == 0 {
        Seq::empty()
    } else {
        questions_shown(q.drop_last()) + "  "@ + q.last().header + "\n"@ + set_in(lines(trimmed(q.last().question)))
    }
}

/// What an event tells of the agent's doing.
pub open spec fn doing_in(e: EventView) -> Seq<char> {
    match e {
        EventView::ToolUse(name) => "  ▸ 使用工具 "@ + name + "\n"@,
        EventView::Reasoning(t) => if blank(t) {
            Seq::empty()
        } else {
            "  💭 "@ + t + "\n"@
        },
        EventView::QuestionRequest(r) => questions_shown(r.questions)
            + "     ↳ CLI 無法回覆此詢問，請改用 Web Console 或 Telegram，否則本回合會等到逾時。\n"@,
        _ => Seq::empty(),
    }
}

fn push_set_in(s: &mut String, list: &Vec<String>)
    ensures
        final(s)@ == old(s)@ + set_in(texts(list@)),
{
    let ghost start = s@;
    let ghost all = texts(list@);
    let mut i: usize = 0;
    assert(s@ =~= start + set_in(all.take(0)));
    while i < list.len()
        invariant
            i <= list.len(),
            all == texts(list@),
            s@ == start + set_in(all.take(i as int)),
        decreases list.len() - i,
    {
        assert(all.take(i + 1).drop_last() =~= all.take(i as int));
        assert(all[i as int] == list@[i as int]@);
        s.append("     ");
        s.append(list[i].as_str());
        s.append("\n");
        i = i + 1;
        assert(s@ =~= start + set_in(all.take(i as int)));
    }
    assert(all.take(i as int) =~= all);
}

fn push_questions(s: &mut String, questions: &Vec<QuestionInfo>)
    ensures
        final(s)@ == old(s)@ + questions_shown(questions_of(questions@)),
{
    let ghost start = s@;
    let ghost all = questions_of(questions@);
    let mut i: usize = 0;
    assert(s@ =~= start + questions_shown(all.take(0)));
    while i < questions.len()
        invariant
            i <= questions.len(),
            all == questions_of(questions@),
            s@ == start + questions_shown(all.take(i as int)),
        decreases questions.len() - i,
    {
        assert(all.take(i + 1).drop_last() =~= all.take(i as int));
        assert(all[i as int] == questions@[i as int]@);
        s.append("  ");
        s.append(questions[i].header.as_str());
        s.append("\n");
        let t = str_trim(questions[i].question.as_str());
        let v = chars_of(t.as_str());
        let list = split_lines(v.as_slice());
        push_set_in(s, &list);
        i = i + 1;
        assert(s@ =~= start + questions_shown(all.take(i as int)));
    }
    assert(all.take(i as int) =~= all);
}

impl StreamRenderer {
    /// Nothing was written yet.
    pub fn new() -> (r: StreamRenderer)
        ensures
            r.out@ == Seq::<char>::empty(),
            r.err@ == Seq::<char>::empty(),
    {
        StreamRenderer { out: String::new(), err: String::new() }
    }

    /// Writes an event: the answer to the first stream, what the agent does to the second. Nobody
    /// can answer a question at a terminal, but it is shown, so that it is clear what is waited for.
    pub fn on_event(&mut self, ev: &StreamEvent)
        ensures
            final(self).out@ == old(self).out@ + answer_in(ev@),
            final(self).err@ == old(self).err@ + doing_in(ev@),
    {
        assert(self.out@ =~= self.out@ + Seq::empty());
        assert(self.err@ =~= self.err@ + Seq::empty());
        match ev {
            StreamEvent::Text(t) => {
                self.out.append(t.as_str());
            },
            StreamEvent::ToolUse(name) => {
                let ghost before = self.err@;
                self.err.append("  ▸ 使用工具 ");
                self.err.append(name.as_str());
                self.err.append("\n");
                assert(self.err@ =~= before + doing_in(ev@));
            },
            StreamEvent::Reasoning(t) => {
                if !is_blank(t.as_str()) {
                    let ghost before = self.err@;
                    self.err.append("  💭 ");
                    self.err.append(t.as_str());
                    self.err.append("\n");
                    assert(self.err@ =~= before + doing_in(ev@));
                }
            },
            StreamEvent::QuestionRequest(request) => {
                let ghost before = self.err@;
                push_questions(&mut self.err, &request.questions);
                self.err.append(
                    "     ↳ CLI 無法回覆此詢問，請改用 Web Console 或 Telegram，否則本回合會等到逾時。\n",
                );
                assert(self.err@ =~= before + doing_in(ev@));
            },
            StreamEvent::StepStart => {},
            StreamEvent::StepFinish => {},
        }
    }
}

} // verus!
