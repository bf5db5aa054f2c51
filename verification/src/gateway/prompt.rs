//! The texts that are put to the agent.
use crate::gateway::backend::{plain_request, AgentRequest};
use crate::memory::answering::hits_of;
use crate::memory::candidates::ScoredView;
use crate::memory::model::RecallHit;
use crate::text::{join, joined, texts};
use vstd::prelude::*;

verus! {

/// The lines of what is remembered, each with its scope.
pub open spec fn memory_lines(hits: Seq<ScoredView>) -> Seq<char>
    decreases hits.len(),
{
    if hits.len() == 0 {
        Seq::empty()
    } else {
        memory_lines(hits.drop_last()) + "- ("@ + hits.last().scope + ") "@ + hits.last().text + "\n"@
    }
}

/// The input behind what is remembered of it; the bare input where nothing is.
pub open spec fn composed(hits: Seq<ScoredView>, input: Seq<char>) -> Seq<char> {
    if hits.len() == 0 {
        input
    } else {
        "[相關記憶]\n"@ + memory_lines(hits) + "\n[使用者輸入]\n"@ + input
    }
}

fn push_memory(s: &mut String, scope: &str, text: &str)
    ensures
        final(s)@ == old(s)@ + "- ("@ + scope@ + ") "@ + text@ + "\n"@,
{
    s.append("- (");
    s.append(scope);
    s.append(") ");
    s.append(text);
    s.append("\n");
}

/// Puts what is remembered before the input.
pub fn compose_prompt(hits: &Vec<RecallHit>, input: &str) -> (r: String)
    ensures
        r@ == composed(hits_of(hits@), input@),
{
    if hits.len() == 0 {
        return input.to_owned();
    }
    let ghost all = hits_of(hits@);
    let mut s = String::from_str("[相關記憶]\n");
    let mut i: usize = 0;
    assert(s@ =~= "[相關記憶]\n"@ + memory_lines(all.take(0)));
    while i < hits.len()
        invariant
            i <= hits.len(),
            all == hits_of(hits@),
            s@ == "[相關記憶]\n"@ + memory_lines(all.take(i as int)),
        decreases hits.len() - i,
    {
        assert(all.take(i + 1).drop_last() =~= all.take(i as int));
        assert(all[i as int] == hits@[i as int]@);
        push_memory(&mut s, hits[i].scope.as_str(), hits[i].text.as_str());
        i = i + 1;
        assert(s@ =~= "[相關記憶]\n"@ + memory_lines(all.take(i as int)));
    }
    assert(all.take(i as int) =~= all);
    s.append("\n[使用者輸入]\n");
    s.append(input);
    s
}

/// The request for a summary of some texts.
pub open spec fn summary_text(given: Seq<Seq<char>>) -> Seq<char> {
    "請把以下記憶濃縮成一段精簡摘要,保留關鍵決策與事實,只輸出摘要本身:\n\n"@ + joined(given, "\n"@)
}

/// Asks the agent for a summary of some texts, in a session of its own.
pub fn summary_request(given: &Vec<String>) -> (r: AgentRequest)
    ensures
        r@ == plain_request(summary_text(texts(given@))),
{
    let mut s = String::from_str(
        "請把以下記憶濃縮成一段精簡摘要,保留關鍵決策與事實,只輸出摘要本身:\n\n",
    );
    let t = join(given, "\n");
    s.append(t.as_str());
    AgentRequest::plain(s)
}

} // verus!
