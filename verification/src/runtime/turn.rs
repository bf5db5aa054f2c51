//! A turn: the steps that the planner chose are put to the agent one after the other, and what was
//! said is remembered.
use crate::gateway::backend::{attachments_of, plain_request, AgentAttachment, AgentRequest, AgentResponse, AttachmentView, RequestForm};
use crate::gateway::config::{GatewayConfig, PlannerPreferences};
use crate::gateway::server_turn::copy_attachments;
use crate::memory::answering::hits_of;
use crate::memory::candidates::ScoredView;
use crate::memory::error::MemoryError;
use crate::memory::model::{MemoryItem, MemoryKind, RecallHit, RecallMode, RecallQuery, RememberInput};
use crate::memory::rows::{conversation_noted, has_blank_item, items_of, with_items, ItemView};
use crate::memory::scope::{parsed_scope, scope_text};
use crate::memory::sessions::{
    holds, lease_end, lease_taken, may_take, state_in_has_scope, states_are_kept_by_scope,
    turn_finished, with_link, with_state, LinkView, StateView,
};
use crate::memory::store::{Store, StoreView};
use crate::orchestrator::role::Role;
use crate::orchestrator::router::{
    is_known_skill, known_skill, parse_role_name, role_word, steps_of, PlannedStep, PlannerPreferenceHint, StepView,
};
use crate::orchestrator::{chain_context, context_of, copy_outcome, outcomes_of, Outcome, OutcomeView};
use crate::runtime::error::{agent_failure, fails_with, WukongError};
use crate::runtime::persona::{
    answer_directive, build_prompt_with_skill, final_answer_directive, schedule_hint, scheduling_capability_hint,
    skilled_text,
};
use crate::runtime::session::{
    lease_given_back, stale_lease_error, state_before_lease, unavailable_text, with_session_state,
};
use crate::text::{
    blank, borrowed, clone_opt, is_blank, opt_text, push_text, same, solid_text_is_not_blank,
    texts, trim_end, trim_start, white, trimmed,
};
use vstd::prelude::*;

verus! {

/// What a turn says where the agent said nothing at all.
pub const NOTHING_SAID: &'static str = "(本回合未產生文字輸出)";

// ---------------------------------------------------------------------------
// Preferences
// ---------------------------------------------------------------------------

/// The roles that some words name, in order.
pub open spec fn roles_named(names: Seq<Seq<char>>) -> Seq<Role>
    decreases names.len(),
{
    if names.len() == 0 {
        Seq::empty()
    } else {
        match role_word(names.last()) {
            Some(r) => roles_named(names.drop_last()).push(r),
            None => roles_named(names.drop_last()),
        }
    }
}

/// The known skills among some names, in order.
pub open spec fn skills_named(names: Seq<Seq<char>>) -> Seq<Seq<char>>
    decreases names.len(),
{
    if names.len() == 0 {
        Seq::empty()
    } else if known_skill(names.last()) {
        skills_named(names.drop_last()).push(names.last())
    } else {
        skills_named(names.drop_last())
    }
}

/// The role that a preference names.
pub fn parse_preferred_role(name: &str) -> (r: Option<Role>)
    ensures
        r == role_word(name@),
{
    parse_role_name(name)
}

/// What the planner is told to prefer: the roles and skills that exist; nothing where none do.
pub fn planner_preference_hint(preferences: &Option<PlannerPreferences>) -> (r: Option<PlannerPreferenceHint>)
    ensures
        match preferences {
            None => r is None,
            Some(p) => {
                let roles = roles_named(texts(p.preferred_roles@));
                let skills = skills_named(texts(p.preferred_skills@));
                if roles.len() == 0 && skills.len() == 0 {
                    r is None
                } else {
                    r is Some && r->0.preferred_roles@ == roles && texts(r->0.preferred_skills@) == skills
                }
            },
        },
{
    match preferences {
        None => None,
        Some(p) => {
            let ghost names = texts(p.preferred_roles@);
            let mut roles: Vec<Role> = Vec::new();
            let mut i: usize = 0;
            assert(roles@ =~= roles_named(names.take(0)));
            while i < p.preferred_roles.len()
                invariant
                    i <= p.preferred_roles.len(),
                    names == texts(p.preferred_roles@),
                    roles@ == roles_named(names.take(i as int)),
                decreases p.preferred_roles.len() - i,
            {
                assert(names.take(i + 1).drop_last() =~= names.take(i as int));
                assert(names[i as int] == p.preferred_roles@[i as int]@);
                if let Some(role) = parse_preferred_role(p.preferred_roles[i].as_str()) {
                    roles.push(role);
                }
                i = i + 1;
            }
            assert(names.take(i as int) =~= names);
            let ghost wanted = texts(p.preferred_skills@);
            let mut skills: Vec<String> = Vec::new();
            let mut j: usize = 0;
            assert(texts(skills@) =~= skills_named(wanted.take(0)));
            while j < p.preferred_skills.len()
                invariant
                    j <= p.preferred_skills.len(),
                    wanted == texts(p.preferred_skills@),
                    texts(skills@) == skills_named(wanted.take(j as int)),
                decreases p.preferred_skills.len() - j,
            {
                assert(wanted.take(j + 1).drop_last() =~= wanted.take(j as int));
                assert(wanted[j as int] == p.preferred_skills@[j as int]@);
                if is_known_skill(p.preferred_skills[j].as_str()) {
                    push_text(&mut skills, p.preferred_skills[j].as_str());
                }
                j = j + 1;
            }
            assert(wanted.take(j as int) =~= wanted);
            assert(texts(skills@).len() == skills@.len());
            if roles.len() == 0 && skills.len() == 0 {
                None
            } else {
                Some(PlannerPreferenceHint { preferred_roles: roles, preferred_skills: skills })
            }
        },
    }
}

/// The question that a turn asks the memory.
pub fn recall_question(cfg: &GatewayConfig, input: &str) -> (r: RecallQuery)
    ensures
        r.query@ == input@,
        r.top_k == cfg.recall_top_k,
        opt_text(r.scope) == Some(cfg.scope@),
        r.mode == RecallMode::Hybrid,
{
    RecallQuery {
        query: input.to_owned(),
        top_k: cfg.recall_top_k,
        scope: Some(cfg.scope.clone()),
        mode: RecallMode::Hybrid,
    }
}

// ---------------------------------------------------------------------------
// The plan of a turn
// ---------------------------------------------------------------------------

/// What a turn starts from.
#[derive(Debug, Clone, PartialEq, Eq)]
pub struct TurnPlan {
    pub input: String,
    pub scope: String,
    pub thinking: bool,
    pub model: Option<String>,
    pub attachments: Vec<AgentAttachment>,
    pub hits: Vec<RecallHit>,
    pub steps: Vec<PlannedStep>,
    /// The session that the last step continues.
    pub stored: Option<String>,
    /// Where the documents of the skills are.
    pub skill_root: String,
    /// The name of the program, for the hint on schedules.
    pub bin: String,
}

/// The mathematical form of a plan.
pub struct PlanView {
    pub input: Seq<char>,
    pub scope: Seq<char>,
    pub thinking: bool,
    pub model: Option<Seq<char>>,
    pub attachments: Seq<AttachmentView>,
    pub hits: Seq<ScoredView>,
    pub steps: Seq<StepView>,
    pub stored: Option<Seq<char>>,
    pub skill_root: Seq<char>,
    pub bin: Seq<char>,
}

impl View for TurnPlan {
    type V = PlanView;

    open spec fn view(&self) -> PlanView {
        PlanView {
            input: self.input@,
            scope: self.scope@,
            thinking: self.thinking,
            model: opt_text(self.model),
            attachments: attachments_of(self.attachments@),
            hits: hits_of(self.hits@),
            steps: steps_of(self.steps@),
            stored: opt_text(self.stored),
            skill_root: self.skill_root@,
            bin: self.bin@,
        }
    }
}

/// How far a turn has come.
#[derive(Debug, Clone, PartialEq, Eq)]
pub struct TurnProgress {
    /// What the steps so far have said.
    pub prior: Vec<Outcome>,
    /// The session that the agent named in the last step.
    pub captured: Option<String>,
    /// What the agent said when it was asked again for words.
    pub repair: Option<String>,
}

/// The mathematical form of a turn's progress.
pub struct ProgressView {
    pub prior: Seq<OutcomeView>,
    pub captured: Option<Seq<char>>,
    pub repair: Option<Seq<char>>,
}

impl View for TurnProgress {
    type V = ProgressView;

    open spec fn view(&self) -> ProgressView {
        ProgressView {
            prior: outcomes_of(self.prior@),
            captured: opt_text(self.captured),
            repair: opt_text(self.repair),
        }
    }
}

/// What a turn does next.
#[derive(Debug, Clone, PartialEq, Eq)]
pub enum TurnMove {
    /// Put a step to the agent; all but the last one in a session that is thrown away.
    Step { role: Role, request: AgentRequest, ephemeral: bool },
    /// Ask again for words.
    Repair { request: AgentRequest },
    /// The turn has its answer.
    Done { answer: Outcome },
}

/// The mathematical form of a move.
pub enum MoveView {
    Step { role: Role, request: RequestForm, ephemeral: bool },
    Repair { request: RequestForm },
    Done { answer: OutcomeView },
}

impl View for TurnMove {
    type V = MoveView;

    open spec fn view(&self) -> MoveView {
        match self {
            TurnMove::Step { role, request, ephemeral } => MoveView::Step {
                role: *role,
                request: request@,
                ephemeral: *ephemeral,
            },
            TurnMove::Repair { request } => MoveView::Repair { request: request@ },
            TurnMove::Done { answer } => MoveView::Done { answer: answer@ },
        }
    }
}

/// The skill of a step, where it is known.
pub open spec fn step_skill(s: StepView) -> Option<Seq<char>> {
    match s.skill {
        Some(n) => if known_skill(n) {
            Some(n)
        } else {
            None
        },
        None => None,
    }
}

/// The prompt of a step. Only the last one is told to answer in words and that it can make
/// schedules.
pub open spec fn step_prompt(p: PlanView, prior: Seq<OutcomeView>, i: int) -> Seq<char> {
    let base = skilled_text(
        p.steps[i].role,
        step_skill(p.steps[i]),
        p.skill_root,
        p.hits,
        p.input + context_of(prior),
    );
    if i + 1 == p.steps.len() {
        base + "\n\n"@ + answer_directive() + "\n\n"@ + schedule_hint(p.scope, p.bin)
    } else {
        base
    }
}

/// The request of a step. Only the last one continues the session and chooses the model.
pub open spec fn step_request(p: PlanView, prior: Seq<OutcomeView>, i: int) -> RequestForm {
    let last = i + 1 == p.steps.len();
    RequestForm {
        prompt: step_prompt(p, prior, i),
        session_id: if last {
            p.stored
        } else {
            None
        },
        thinking: p.thinking,
        model: if last {
            p.model
        } else {
            None
        },
        agent: None,
        tool_overrides: Seq::empty(),
        attachments: p.attachments,
    }
}

/// A prompt with the demand for words.
pub open spec fn repair_text(prompt: Seq<char>) -> Seq<char> {
    prompt + "\n\n[修復回覆]\n"@ + "上一輪沒有產生任何可回覆文字，可能是工具不可用、權限被拒，或只完成了工具呼叫。\n"@
        + "這次不要呼叫工具，也不要嘗試讀取環境；請直接根據使用者原問題與已知上下文，用繁體中文給出可交付的文字回覆。"@
}

/// The first of two optional sessions that is there.
pub open spec fn session_or(a: Option<Seq<char>>, b: Option<Seq<char>>) -> Option<Seq<char>> {
    match a {
        Some(s) => Some(s),
        None => b,
    }
}

/// The request for words after the last step said nothing.
pub open spec fn repair_request(p: PlanView, g: ProgressView) -> RequestForm {
    let n = p.steps.len() as int;
    RequestForm {
        prompt: repair_text(step_prompt(p, g.prior.take(n - 1), n - 1)),
        session_id: session_or(g.captured, p.stored),
        thinking: p.thinking,
        model: p.model,
        agent: None,
        tool_overrides: Seq::empty(),
        attachments: p.attachments,
    }
}

/// The last of the outcomes that says anything.
pub open spec fn last_said(prior: Seq<OutcomeView>) -> Option<OutcomeView>
    decreases prior.len(),
{
    if prior.len() == 0 {
        None
    } else if !blank(prior.last().output) {
        Some(prior.last())
    } else {
        last_said(prior.drop_last())
    }
}

/// What a turn does next.
pub open spec fn next(p: PlanView, g: ProgressView) -> MoveView {
    let n = p.steps.len();
    if g.prior.len() < n {
        let i = g.prior.len() as int;
        MoveView::Step {
            role: p.steps[i].role,
            request: step_request(p, g.prior, i),
            ephemeral: i + 1 != n,
        }
    } else {
        match last_said(g.prior) {
            Some(o) => MoveView::Done { answer: o },
            None => if n == 0 {
                MoveView::Done { answer: OutcomeView { role: Role::Oracle, output: NOTHING_SAID@ } }
            } else {
                match g.repair {
                    None => MoveView::Repair { request: repair_request(p, g) },
                    Some(t) => MoveView::Done {
                        answer: OutcomeView {
                            role: p.steps[n - 1].role,
                            output: if blank(t) {
                                NOTHING_SAID@
                            } else {
                                t
                            },
                        },
                    },
                }
            },
        }
    }
}

/// How far a turn is after a reply. The session is that of the last step, and of the demand for
/// words where the reply to it names one.
pub open spec fn replied(p: PlanView, g: ProgressView, text: Seq<char>, session: Option<Seq<char>>) -> ProgressView {
    let n = p.steps.len();
    let i = g.prior.len() as int;
    if i < n {
        ProgressView {
            prior: g.prior.push(OutcomeView { role: p.steps[i].role, output: text }),
            captured: if i + 1 == n {
                session
            } else {
                g.captured
            },
            ..g
        }
    } else {
        ProgressView { repair: Some(text), captured: session_or(session, g.captured), ..g }
    }
}

/// What a helping step said, for those who watch the turn.
#[derive(Debug, Clone, PartialEq, Eq)]
pub struct ObservedStep {
    pub role: Role,
    pub skill_name: Option<String>,
    pub output: String,
}

/// The mathematical form of what a helping step said.
pub struct ObservedView {
    pub role: Role,
    pub skill_name: Option<Seq<char>>,
    pub output: Seq<char>,
}

impl View for ObservedStep {
    type V = ObservedView;

    open spec fn view(&self) -> ObservedView {
        ObservedView {
            role: self.role,
            skill_name: opt_text(self.skill_name),
            output: self.output@,
        }
    }
}

/// The mathematical form of an optional observation.
pub open spec fn opt_observed(o: Option<ObservedStep>) -> Option<ObservedView> {
    match o {
        Some(s) => Some(s@),
        None => None,
    }
}

/// What those who watch the turn see of a reply: what a helping step says, and nothing of the last
/// one, whose words are the answer.
pub open spec fn observed(p: PlanView, g: ProgressView, text: Seq<char>) -> Option<ObservedView> {
    let i = g.prior.len() as int;
    if i + 1 < p.steps.len() && !blank(text) {
        Some(ObservedView { role: p.steps[i].role, skill_name: p.steps[i].skill, output: text })
    } else {
        None
    }
}

fn append_empty_output_repair_directive(prompt: String) -> (r: String)
    ensures
        r@ == repair_text(prompt@),
{
    let mut s = prompt;
    s.append("\n\n[修復回覆]\n");
    s.append("上一輪沒有產生任何可回覆文字，可能是工具不可用、權限被拒，或只完成了工具呼叫。\n");
    s.append(
        "這次不要呼叫工具，也不要嘗試讀取環境；請直接根據使用者原問題與已知上下文，用繁體中文給出可交付的文字回覆。",
    );
    s
}

impl TurnPlan {
    fn prompt_at(&self, prior: &Vec<Outcome>, i: usize) -> (r: String)
        requires
            i < self.steps@.len(),
        ensures
            r@ == step_prompt(self@, outcomes_of(prior@), i as int),
    {
        assert(self@.steps[i as int] == self.steps@[i as int]@);
        let step = &self.steps[i];
        let mut task = self.input.clone();
        let context = chain_context(prior);
        task.append(context.as_str());
        let skill: Option<&str> = match &step.skill_name {
            Some(n) => if is_known_skill(n.as_str()) {
                Some(n.as_str())
            } else {
                None
            },
            None => None,
        };
        let mut s = build_prompt_with_skill(
            step.role,
            skill,
            self.skill_root.as_str(),
            &self.hits,
            task.as_str(),
        );
        if self.steps.len() - i == 1 {
            s.append("\n\n");
            s.append(final_answer_directive());
            s.append("\n\n");
            let hint = scheduling_capability_hint(self.scope.as_str(), self.bin.as_str());
            s.append(hint.as_str());
        }
        s
    }

    fn request(&self, prompt: String, session_id: Option<String>, model: Option<String>) -> (r: AgentRequest)
        ensures
            r@ == (RequestForm {
                prompt: prompt@,
                session_id: opt_text(session_id),
                thinking: self.thinking,
                model: opt_text(model),
                agent: None,
                tool_overrides: Seq::empty(),
                attachments: attachments_of(self.attachments@),
            }),
    {
        let r = AgentRequest {
            prompt,
            session_id,
            thinking: self.thinking,
            model,
            agent: None,
            tool_overrides: Vec::new(),
            attachments: copy_attachments(&self.attachments),
        };
        assert(r@.tool_overrides =~= Seq::empty());
        r
    }

    /// What the turn does next.
    pub fn next_move(&self, progress: &TurnProgress) -> (r: TurnMove)
        ensures
            r@ == next(self@, progress@),
    {
        let n: usize = self.steps.len();
        let i: usize = progress.prior.len();
        assert(progress@.prior.len() == i);
        assert(self@.steps.len() == n);
        if i < n {
            assert(self@.steps[i as int] == self.steps@[i as int]@);
            let prompt = self.prompt_at(&progress.prior, i);
            let last = n - i == 1;
            let session_id = if last {
                clone_opt(&self.stored)
            } else {
                None
            };
            let model = if last {
                clone_opt(&self.model)
            } else {
                None
            };
            let request = self.request(prompt, session_id, model);
            return TurnMove::Step { role: self.steps[i].role, request, ephemeral: !last };
        }
        if let Some(answer) = last_words(&progress.prior) {
            return TurnMove::Done { answer };
        }
        if n == 0 {
            return TurnMove::Done {
                answer: Outcome { role: Role::Oracle, output: NOTHING_SAID.to_owned() },
            };
        }
        assert(self@.steps[n - 1] == self.steps@[n - 1]@);
        match &progress.repair {
            Some(t) => {
                let output = if is_blank(t.as_str()) {
                    NOTHING_SAID.to_owned()
                } else {
                    t.clone()
                };
                TurnMove::Done { answer: Outcome { role: self.steps[n - 1].role, output } }
            },
            None => {
                let mut before: Vec<Outcome> = Vec::new();
                let mut k: usize = 0;
                let ghost all = outcomes_of(progress.prior@);
                assert(outcomes_of(before@) =~= all.take(0));
                while k < n - 1
                    invariant
                        k <= n - 1,
                        n <= progress.prior@.len(),
                        all == outcomes_of(progress.prior@),
                        outcomes_of(before@) == all.take(k as int),
                    decreases n - 1 - k,
                {
                    let ghost so_far = outcomes_of(before@);
                    before.push(copy_outcome(&progress.prior[k]));
                    assert(outcomes_of(before@) =~= so_far.push(all[k as int]));
                    k = k + 1;
                    assert(outcomes_of(before@) =~= all.take(k as int));
                }
                let prompt = append_empty_output_repair_directive(self.prompt_at(&before, n - 1));
                let session_id = match &progress.captured {
                    Some(s) => Some(s.clone()),
                    None => clone_opt(&self.stored),
                };
                let request = self.request(prompt, session_id, clone_opt(&self.model));
                TurnMove::Repair { request }
            },
        }
    }

    /// Takes in a reply of the agent, and gives what those who watch the turn see of it.
    pub fn accept(&self, progress: &mut TurnProgress, reply: AgentResponse) -> (r: Option<ObservedStep>)
        ensures
            final(progress)@ == replied(
                self@,
                old(progress)@,
                reply.text@,
                opt_text(reply.session_id),
            ),
            opt_observed(r) == observed(self@, old(progress)@, reply.text@),
    {
        let n: usize = self.steps.len();
        let i: usize = progress.prior.len();
        assert(progress@.prior.len() == i);
        assert(self@.steps.len() == n);
        if i >= n {
            if let Some(s) = reply.session_id {
                progress.captured = Some(s);
            }
            progress.repair = Some(reply.text);
            return None;
        }
        assert(self@.steps[i as int] == self.steps@[i as int]@);
        let last = n - i == 1;
        let seen = if !last && !is_blank(reply.text.as_str()) {
            Some(
                ObservedStep {
                    role: self.steps[i].role,
                    skill_name: clone_opt(&self.steps[i].skill_name),
                    output: reply.text.clone(),
                },
            )
        } else {
            None
        };
        if last {
            progress.captured = reply.session_id;
        }
        let ghost before = progress@.prior;
        let outcome = Outcome { role: self.steps[i].role, output: reply.text };
        let ghost v = outcome@;
        progress.prior.push(outcome);
        assert(progress@.prior =~= before.push(v));
        seen
    }
}

impl TurnProgress {
    /// A turn that has not begun.
    pub fn new() -> (r: TurnProgress)
        ensures
            r@ == (ProgressView { prior: Seq::empty(), captured: None, repair: None }),
    {
        let r = TurnProgress { prior: Vec::new(), captured: None, repair: None };
        assert(r@.prior =~= Seq::empty());
        r
    }
}

fn last_words(prior: &Vec<Outcome>) -> (r: Option<Outcome>)
    ensures
        match r {
            Some(o) => last_said(outcomes_of(prior@)) == Some(o@),
            None => last_said(outcomes_of(prior@)) is None,
        },
{
    let ghost all = outcomes_of(prior@);
    let mut i: usize = prior.len();
    assert(all.take(i as int) =~= all);
    while i > 0
        invariant
            i <= prior.len(),
            all == outcomes_of(prior@),
            last_said(all) == last_said(all.take(i as int)),
        decreases i,
    {
        assert(all.take(i as int).drop_last() =~= all.take(i - 1));
        assert(all.take(i as int).last() == prior@[i - 1]@);
        if !is_blank(prior[i - 1].output.as_str()) {
            return Some(copy_outcome(&prior[i - 1]));
        }
        i = i - 1;
    }
    None
}

// ---------------------------------------------------------------------------
// What a turn promises
// ---------------------------------------------------------------------------

/// How often a turn still asks the agent, at most.
pub open spec fn questions_left(p: PlanView, g: ProgressView) -> int {
    (if g.prior.len() < p.steps.len() {
        p.steps.len() - g.prior.len()
    } else {
        0
    }) + (if g.repair is None {
        1int
    } else {
        0
    })
}

/// A turn ends: every reply brings it nearer to its answer.
pub proof fn turns_end(p: PlanView, g: ProgressView, text: Seq<char>, session: Option<Seq<char>>)
    requires
        !(next(p, g) is Done),
    ensures
        questions_left(p, replied(p, g, text, session)) < questions_left(p, g),
        questions_left(p, replied(p, g, text, session)) >= 0,
{
}

proof fn said_is_not_blank(prior: Seq<OutcomeView>)
    ensures
        last_said(prior) is Some ==> !blank(last_said(prior)->0.output),
    decreases prior.len(),
{
    if prior.len() > 0 && blank(prior.last().output) {
        said_is_not_blank(prior.drop_last());
    }
}

/// The answer of a turn is never blank.
pub proof fn answers_are_not_blank(p: PlanView, g: ProgressView)
    requires
        next(p, g) is Done,
    ensures
        !blank(next(p, g)->answer.output),
{
    said_is_not_blank(g.prior);
    reveal_strlit("(本回合未產生文字輸出)");
    solid_text_is_not_blank(NOTHING_SAID@);
}

/// A step before the last one neither continues a session nor chooses a model, its session is
/// thrown away, and its prompt says nothing of schedules.
pub proof fn helpers_are_isolated(p: PlanView, g: ProgressView)
    requires
        g.prior.len() + 1 < p.steps.len(),
    ensures
        next(p, g) matches MoveView::Step { request, ephemeral, .. } && ephemeral && request.session_id is None
            && request.model is None && request.prompt == skilled_text(
            p.steps[g.prior.len() as int].role,
            step_skill(p.steps[g.prior.len() as int]),
            p.skill_root,
            p.hits,
            p.input + context_of(g.prior),
        ),
{
}

// ---------------------------------------------------------------------------
// The end of a turn
// ---------------------------------------------------------------------------

/// The answer of a turn.
#[derive(Debug, Clone, PartialEq, Eq)]
pub struct TurnOutput {
    pub role: Role,
    pub text: String,
}

/// What a turn is known by: its session, or its scope and input where it has none.
pub open spec fn turn_key(p: PlanView, g: ProgressView) -> Seq<char> {
    match session_or(g.captured, p.stored) {
        Some(s) => s,
        None => "scope:"@ + p.scope + ":input:"@ + p.input,
    }
}

/// What is remembered of a turn: what the user said, and the answer.
pub open spec fn turn_items(p: PlanView, g: ProgressView, answer: Seq<char>) -> Seq<ItemView> {
    seq![
        ItemView {
            kind: MemoryKind::Event,
            text: "User: "@ + p.input,
            importance: None,
            dedupe_key: Some("runtime:"@ + turn_key(p, g) + ":user"@),
        },
        ItemView {
            kind: MemoryKind::Event,
            text: "Assistant: "@ + answer,
            importance: None,
            dedupe_key: Some("runtime:"@ + turn_key(p, g) + ":assistant"@),
        },
    ]
}

fn event(prefix: &str, text: &str, key: &str, suffix: &str) -> (r: MemoryItem)
    ensures
        r@ == (ItemView {
            kind: MemoryKind::Event,
            text: prefix@ + text@,
            importance: None,
            dedupe_key: Some("runtime:"@ + key@ + suffix@),
        }),
{
    let mut t = String::from_str(prefix);
    t.append(text);
    let mut k = String::from_str("runtime:");
    k.append(key);
    k.append(suffix);
    MemoryItem { kind: MemoryKind::Event, text: t, importance: None, dedupe_key: Some(k) }
}

impl TurnPlan {
    /// The session that the turn went on in.
    pub fn turn_session(&self, progress: &TurnProgress) -> (r: Option<String>)
        ensures
            opt_text(r) == session_or(progress@.captured, self@.stored),
    {
        match &progress.captured {
            Some(s) => Some(s.clone()),
            None => clone_opt(&self.stored),
        }
    }

    /// What is remembered of the turn.
    pub fn turn_memory(&self, progress: &TurnProgress, answer: &str) -> (r: RememberInput)
        ensures
            r.scope@ == self@.scope,
            opt_text(r.session_id) == session_or(progress@.captured, self@.stored),
            items_of(r.items@) == turn_items(self@, progress@, answer@),
    {
        let session_id = self.turn_session(progress);
        let key = match &session_id {
            Some(s) => s.clone(),
            None => {
                let mut k = String::from_str("scope:");
                k.append(self.scope.as_str());
                k.append(":input:");
                k.append(self.input.as_str());
                k
            },
        };
        let mut items: Vec<MemoryItem> = Vec::new();
        items.push(event("User: ", self.input.as_str(), key.as_str(), ":user"));
        items.push(event("Assistant: ", answer, key.as_str(), ":assistant"));
        assert(items_of(items@) =~= turn_items(self@, progress@, answer@));
        RememberInput { scope: self.scope.clone(), session_id, items }
    }
}

proof fn turn_items_are_not_blank(p: PlanView, g: ProgressView, answer: Seq<char>)
    ensures
        !has_blank_item(turn_items(p, g, answer)),
{
    let items = turn_items(p, g, answer);
    reveal_strlit("User: ");
    reveal_strlit("Assistant: ");
    starts_solid(items[0].text);
    starts_solid(items[1].text);
}

proof fn starts_solid(s: Seq<char>)
    requires
        s.len() > 0,
        !white(s[0]),
    ensures
        !blank(s),
    decreases s.len(),
{
    assert(trim_start(s) == s);
    trim_end_keeps_front(s);
}

proof fn trim_end_keeps_front(s: Seq<char>)
    requires
        s.len() > 0,
        !white(s[0]),
    ensures
        trim_end(s).len() > 0,
    decreases s.len(),
{
    if white(s.last()) {
        assert(s.drop_last()[0] == s[0]);
        trim_end_keeps_front(s.drop_last());
    }
}

/// The tables after what was said is remembered.
pub open spec fn turn_remembered(s: StoreView, p: PlanView, g: ProgressView, answer: Seq<char>, now: i64) -> StoreView {
    let scope = scope_text(parsed_scope(p.scope)->0);
    let session = session_or(g.captured, p.stored);
    with_items(
        conversation_noted(s, session, scope, now),
        session,
        scope,
        turn_items(p, g, answer),
        now,
    )
}

/// The text of the error that the lease ran out before the turn was over.
pub open spec fn lost_text(scope: Seq<char>) -> Seq<char> {
    "session lease lost for scope "@ + scope
}

/// The tables after a turn was counted, in the session that it went on in.
pub open spec fn turn_counted(s: StoreView, v: StateView, session: Option<Seq<char>>, scope: Seq<char>, now: i64) -> StoreView {
    let done = turn_finished(v, session, now);
    StoreView {
        states: with_state(s.states, done),
        sessions: match done.session_id {
            Some(i) => with_link(s.sessions, LinkView { scope, session_id: i, updated_at: now }),
            None => s.sessions,
        },
        ..s
    }
}

proof fn items_leave_sessions(
    s: StoreView,
    session: Option<Seq<char>>,
    scope: Seq<char>,
    items: Seq<ItemView>,
    now: i64,
)
    ensures
        with_items(s, session, scope, items, now).states == s.states,
        with_items(s, session, scope, items, now).sessions == s.sessions,
    decreases items.len(),
{
    if items.len() > 0 {
        items_leave_sessions(s, session, scope, items.drop_last(), now);
    }
}

/// Ends a turn: remembers what was said, takes the lease once more and counts the turn. Where that
/// fails, the lease is given back.
pub fn conclude_turn(
    store: &mut Store,
    plan: &TurnPlan,
    progress: &TurnProgress,
    answer: Outcome,
    owner: &str,
    lease_secs: i64,
    now: i64,
    end: i64,
) -> (r: Result<TurnOutput, WukongError>)
    requires
        old(store)@.wf(),
        old(store)@.next_id + 2 <= i64::MAX,
        lease_end(now as int, lease_secs as int) <= i64::MAX,
        state_before_lease(old(store)@, plan@.scope, now).turn_count < i64::MAX,
    ensures
        final(store)@.wf(),
        ({
            let s = old(store)@;
            let scope = plan@.scope;
            let kept = turn_remembered(s, plan@, progress@, answer@.output, now);
            let start = state_before_lease(kept, scope, now);
            let taken = lease_taken(start, owner@, now, lease_secs);
            if parsed_scope(scope) is None {
                &&& r matches Err(WukongError::Memory(MemoryError::InvalidScope(t))) && t@ == trimmed(scope)
                &&& final(store)@ == lease_given_back(s, scope, owner@, end)
            } else if !may_take(start, owner@, now as int) {
                &&& r is Err && fails_with(r->Err_0, unavailable_text(scope))
                &&& final(store)@ == lease_given_back(kept, scope, owner@, end)
            } else if !holds(taken, owner@, end as int) {
                &&& r is Err && fails_with(r->Err_0, lost_text(scope))
                &&& final(store)@ == lease_given_back(with_session_state(kept, taken), scope, owner@, end)
            } else {
                &&& r is Ok && r->Ok_0.role == answer.role && r->Ok_0.text@ == answer@.output
                &&& final(store)@ == turn_counted(
                    with_session_state(kept, taken),
                    taken,
                    session_or(progress@.captured, plan@.stored),
                    scope,
                    end,
                )
            }
        }),
{
    let scope = plan.scope.as_str();
    let input = plan.turn_memory(progress, answer.output.as_str());
    proof {
        turn_items_are_not_blank(plan@, progress@, answer@.output);
        assert(items_of(input.items@).len() == input.items@.len());
    }
    let ghost s = store@;
    match store.remember(&input, now) {
        Err(e) => {
            let _ = store.release_agent_session_lease(scope, owner, end);
            return Err(WukongError::Memory(e));
        },
        Ok(_) => {},
    }
    let ghost kept = store@;
    proof {
        let text = scope_text(parsed_scope(plan@.scope)->0);
        let session = session_or(progress@.captured, plan@.stored);
        items_leave_sessions(
            conversation_noted(s, session, text, now),
            session,
            text,
            turn_items(plan@, progress@, answer@.output),
            now,
        );
        assert(kept == turn_remembered(s, plan@, progress@, answer@.output, now));
        assert(kept.states == s.states && kept.sessions == s.sessions);
        state_in_has_scope(kept.states, scope@);
    }
    match store.acquire_agent_session_lease(scope, owner, now, lease_secs) {
        None => {
            let _ = store.release_agent_session_lease(scope, owner, end);
            return Err(stale_lease_error(scope));
        },
        Some(_) => {},
    }
    let ghost taken = lease_taken(state_before_lease(kept, scope@, now), owner@, now, lease_secs);
    proof {
        states_are_kept_by_scope(kept.states, taken, scope@);
    }
    let session = plan.turn_session(progress);
    match store.finish_agent_session_turn(scope, owner, borrowed(&session), end) {
        None => {
            let _ = store.release_agent_session_lease(scope, owner, end);
            let mut t = String::from_str("session lease lost for scope ");
            t.append(scope);
            Err(agent_failure(t))
        },
        Some(_) => Ok(TurnOutput { role: answer.role, text: answer.output }),
    }
}

/// The session that is to be deleted after a turn: the one whose place another took.
pub fn session_to_delete(rotated_from: &Option<String>, captured: &Option<String>) -> (r: Option<String>)
    ensures
        opt_text(r) == (match opt_text(*rotated_from) {
            Some(old_id) => if opt_text(*captured) == Some(old_id) {
                None
            } else {
                Some(old_id)
            },
            None => None,
        }),
{
    match rotated_from {
        Some(old_id) => {
            let kept = match captured {
                Some(c) => same(c.as_str(), old_id.as_str()),
                None => false,
            };
            if kept {
                None
            } else {
                Some(old_id.clone())
            }
        },
        None => None,
    }
}

/// What is done with a command that goes straight to a session.
#[derive(Debug, Clone, PartialEq, Eq)]
pub enum Passthrough {
    Compact,
    Run(AgentRequest),
}

/// What is done with a command that goes straight to a session: the command to compact has its own
/// way, and everything else is put to the session as it is.
pub fn session_passthrough(session_id: &str, command: &str) -> (r: Passthrough)
    ensures
        if command@ == "/compact"@ {
            r is Compact
        } else {
            r matches Passthrough::Run(q) && q@ == (RequestForm {
                session_id: Some(session_id@),
                ..plain_request(command@)
            })
        },
{
    if same(command, "/compact") {
        return Passthrough::Compact;
    }
    let mut q = AgentRequest::plain(command.to_owned());
    q.session_id = Some(session_id.to_owned());
    Passthrough::Run(q)
}

} // verus!
