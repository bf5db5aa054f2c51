//! Prompts that carry the persona and the text of a skill.
use crate::gateway::prompt::{compose_prompt, composed};
use crate::memory::answering::hits_of;
use crate::memory::candidates::ScoredView;
use crate::memory::model::RecallHit;
use crate::orchestrator::role::{card_of, Role};
use crate::runtime::persona::WUKONG_PERSONA;
use crate::runtime::skill_assets::SkillSpec;
use vstd::prelude::*;

verus! {

/// The block that hands a skill to the agent.
pub open spec fn skill_document(skill: SkillSpec) -> Seq<char> {
    "\n\n[技能規範]\n你必須遵循 `"@ + skill.name@ + "` 的流程。以下是技能文件：\n"@ + skill.content@
}

/// The persona, the card of a role, a skill where there is one, and the input behind what is
/// remembered of it.
pub open spec fn persona_text(role: Role, skill: Option<&SkillSpec>, hits: Seq<ScoredView>, input: Seq<char>) -> Seq<char> {
    WUKONG_PERSONA@ + "\n\n"@ + card_of(role) + (match skill {
        Some(s) => skill_document(*s),
        None => Seq::empty(),
    }) + "\n\n"@ + composed(hits, input)
}

/// The prompt of a role, without a skill.
pub fn build_prompt(role: Role, hits: &Vec<RecallHit>, input: &str) -> (r: String)
    ensures
        r@ == persona_text(role, None, hits_of(hits@), input@),
{
    build_prompt_with_skill(role, None, hits, input)
}

/// The prompt of a role, with the document of a skill where there is one.
pub fn build_prompt_with_skill(role: Role, skill: Option<&SkillSpec>, hits: &Vec<RecallHit>, input: &str) -> (r: String)
    ensures
        r@ == persona_text(role, skill, hits_of(hits@), input@),
{
    let mut s = String::from_str(WUKONG_PERSONA);
    s.append("\n\n");
    s.append(role.card());
    let ghost head = s@;
    match skill {
        Some(k) => {
            s.append("\n\n[技能規範]\n你必須遵循 `");
            s.append(k.name.as_str());
            s.append("` 的流程。以下是技能文件：\n");
            s.append(k.content.as_str());
            assert(s@ =~= head + skill_document(*k));
        },
        None => {
            assert(s@ =~= head + Seq::empty());
        },
    }
    s.append("\n\n");
    let body = compose_prompt(hits, input);
    s.append(body.as_str());
    s
}

} // verus!
