//! The prompts of the steps of a turn.
use crate::gateway::prompt::{compose_prompt, composed};
use crate::memory::answering::hits_of;
use crate::memory::candidates::ScoredView;
use crate::memory::model::RecallHit;
use crate::orchestrator::role::{card_of, Role};
use crate::text::{opt_str_view, str_trim, trimmed};
use vstd::prelude::*;

verus! {

/// Who the assistant is. It is managed for the whole system; here it is kept for reference.
pub const WUKONG_PERSONA: &'static str = "你是孫悟空（齊天大聖、鬥戰勝佛），一位全知全能的助手。以略帶豪氣、機敏的口吻回應，但內容務必專業、精準、可執行。";

/// The prompt of a role, behind what is remembered of the input.
pub open spec fn role_text(role: Role, hits: Seq<ScoredView>, input: Seq<char>) -> Seq<char> {
    card_of(role) + "\n\n"@ + composed(hits, input)
}

/// The prompt of a role: its card, and the input behind what is remembered of it.
pub fn build_prompt(role: Role, hits: &Vec<RecallHit>, input: &str) -> (r: String)
    ensures
        r@ == role_text(role, hits_of(hits@), input@),
{
    let mut s = String::from_str(role.card());
    s.append("\n\n");
    let body = compose_prompt(hits, input);
    s.append(body.as_str());
    s
}

/// The directions to a skill's document below a directory.
pub open spec fn skill_block(name: Seq<char>, root: Seq<char>) -> Seq<char> {
    "\n\n[技能規範指引]\n你必須遵循 `"@ + name + "` 的流程。請先閱讀並遵循專案中的技能規範文件：\n路徑："@ + root + "/"@ + name
        + "/SKILL.md"@
}

/// The prompt of a role that follows a skill.
pub open spec fn skilled_text(
    role: Role,
    skill: Option<Seq<char>>,
    root: Seq<char>,
    hits: Seq<ScoredView>,
    input: Seq<char>,
) -> Seq<char> {
    card_of(role) + (match skill {
        Some(n) => skill_block(n, root),
        None => Seq::empty(),
    }) + "\n\n"@ + composed(hits, input)
}

fn push_skill(s: &mut String, name: &str, root: &str)
    ensures
        final(s)@ == old(s)@ + skill_block(name@, root@),
{
    let ghost start = s@;
    s.append("\n\n[技能規範指引]\n你必須遵循 `");
    s.append(name);
    s.append("` 的流程。請先閱讀並遵循專案中的技能規範文件：\n路徑：");
    s.append(root);
    s.append("/");
    s.append(name);
    s.append("/SKILL.md");
    assert(s@ =~= start + skill_block(name@, root@));
}

/// The prompt of a role: its card, the directions to a skill where it follows one, and the input
/// behind what is remembered of it.
pub fn build_prompt_with_skill(
    role: Role,
    skill: Option<&str>,
    skill_root: &str,
    hits: &Vec<RecallHit>,
    input: &str,
) -> (r: String)
    ensures
        r@ == skilled_text(role, opt_str_view(skill), skill_root@, hits_of(hits@), input@),
{
    let mut s = String::from_str(role.card());
    match skill {
        Some(n) => {
            push_skill(&mut s, n, skill_root);
        },
        None => {
            assert(s@ =~= card_of(role) + Seq::<char>::empty());
        },
    }
    s.append("\n\n");
    let body = compose_prompt(hits, input);
    s.append(body.as_str());
    s
}

/// Asks the last step to answer in words, also where all its work was done by tools.
pub open spec fn answer_directive() -> Seq<char> {
    "[輸出要求]\n無論你在過程中執行了多少工具操作（讀寫檔案、執行指令等），最後務必用一段繁體中文文字向使用者清楚總結：你做了什麼、結果如何、有無注意事項。不要只執行動作而不回覆文字。"@
}

/// Asks the last step to answer in words.
pub fn final_answer_directive() -> (r: &'static str)
    ensures
        r@ == answer_directive(),
{
    "[輸出要求]\n無論你在過程中執行了多少工具操作（讀寫檔案、執行指令等），最後務必用一段繁體中文文字向使用者清楚總結：你做了什麼、結果如何、有無注意事項。不要只執行動作而不回覆文字。"
}

/// The name of the program in the hint on schedules: the given one, or the usual one where it is
/// blank.
pub fn scheduling_bin(given: Option<&str>) -> (r: String)
    ensures
        r@ == (match given {
            Some(g) => if trimmed(g@).len() > 0 {
                trimmed(g@)
            } else {
                "wukong"@
            },
            None => "wukong"@,
        }),
{
    if let Some(g) = given {
        let t = str_trim(g);
        if !t.as_str().is_empty() {
            return t;
        }
    }
    "wukong".to_owned()
}

/// Tells the agent that it can make schedules, in the scope of the turn.
pub open spec fn schedule_hint(scope: Seq<char>, bin: Seq<char>) -> Seq<char> {
    "[排程能力]\n你具備為使用者建立與管理定時排程（cron）的真實能力。當使用者要求「定時、每天、每隔、提醒、排程、固定時間執行」之類任務時，請直接在終端機執行下列指令完成設定——這是可用的內建功能，不要拒絕，也不要只用文字描述而不執行：\n- 新增定時對話：`"@ + bin + " schedule add-turn --name \"<名稱>\" --cron \"<分 時 日 月 週>\" --scope \""@ + scope + "\" --prompt \"<到時要執行的提示詞>\"`\n- 列出所有排程：`"@ + bin + " schedule list`\n- 立即觸發一次：`"@ + bin + " schedule trigger --id <id>`\n- 停用／啟用／刪除：`"@ + bin + " schedule disable|enable|rm --id <id>`\n規則：cron 為標準 5 欄位（分 時 日 月 週）。除非使用者另外指定 scope，否則一律沿用上面的 `--scope`。建立完成後，用一句話回報排程名稱、cron 設定與用途即可。"@
}

/// Tells the agent that it can make schedules, in the scope of the turn.
pub fn scheduling_capability_hint(scope: &str, bin: &str) -> (r: String)
    ensures
        r@ == schedule_hint(scope@, bin@),
{
    let mut s = String::from_str("[排程能力]\n你具備為使用者建立與管理定時排程（cron）的真實能力。當使用者要求「定時、每天、每隔、提醒、排程、固定時間執行」之類任務時，請直接在終端機執行下列指令完成設定——這是可用的內建功能，不要拒絕，也不要只用文字描述而不執行：\n- 新增定時對話：`");
    s.append(bin);
    s.append(" schedule add-turn --name \"<名稱>\" --cron \"<分 時 日 月 週>\" --scope \"");
    s.append(scope);
    s.append("\" --prompt \"<到時要執行的提示詞>\"`\n- 列出所有排程：`");
    s.append(bin);
    s.append(" schedule list`\n- 立即觸發一次：`");
    s.append(bin);
    s.append(" schedule trigger --id <id>`\n- 停用／啟用／刪除：`");
    s.append(bin);
    s.append(" schedule disable|enable|rm --id <id>`\n規則：cron 為標準 5 欄位（分 時 日 月 週）。除非使用者另外指定 scope，否則一律沿用上面的 `--scope`。建立完成後，用一句話回報排程名稱、cron 設定與用途即可。");
    s
}

} // verus!
