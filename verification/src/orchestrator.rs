//! Choosing roles for a task and running them one after another.
pub mod laws;
pub mod role;
pub mod router;

use crate::gateway::backend::{AgentRequest, RequestForm, plain_request};
use crate::gateway::error::{gateway_message, GatewayError};
use crate::orchestrator::role::{card_of, name_of, Role};
use vstd::prelude::*;

verus! {

/// All errors of the orchestrator.
#[derive(Debug, Clone, PartialEq, Eq)]
pub enum OrchestratorError {
    Backend(GatewayError),
}

/// The text that an error shows.
pub open spec fn orchestrator_message(e: OrchestratorError) -> Seq<char> {
    match e {
        OrchestratorError::Backend(g) => "backend error: "@ + gateway_message(g),
    }
}

impl OrchestratorError {
    /// The text that the error shows.
    pub fn message(&self) -> (r: String)
        ensures
            r@ == orchestrator_message(*self),
    {
        match self {
            OrchestratorError::Backend(g) => {
                let mut r = String::from_str("backend error: ");
                let inner = g.message();
                r.append(inner.as_str());
                r
            },
        }
    }
}

/// What a role produced.
#[derive(Debug, Clone, PartialEq, Eq)]
pub struct Outcome {
    pub role: Role,
    pub output: String,
}

/// The mathematical form of an outcome.
pub struct OutcomeView {
    pub role: Role,
    pub output: Seq<char>,
}

impl View for Outcome {
    type V = OutcomeView;

    open spec fn view(&self) -> OutcomeView {
        OutcomeView { role: self.role, output: self.output@ }
    }
}

/// The mathematical forms of a sequence of outcomes.
pub open spec fn outcomes_of(v: Seq<Outcome>) -> Seq<OutcomeView> {
    v.map_values(|o: Outcome| o@)
}

/// A copy of an outcome.
pub fn copy_outcome(o: &Outcome) -> (r: Outcome)
    ensures
        r@ == o@,
{
    Outcome { role: o.role, output: o.output.clone() }
}

/// What all roles of a chain produced, in order.
#[derive(Debug, Clone, PartialEq, Eq)]
pub struct ChainOutcome {
    pub steps: Vec<Outcome>,
}

impl ChainOutcome {
    /// What the last role produced; empty for an empty chain.
    pub fn final_output(&self) -> (r: &str)
        ensures
            r@ == (if self.steps@.len() > 0 {
                self.steps@.last().output@
            } else {
                Seq::empty()
            }),
    {
        if self.steps.len() > 0 {
            self.steps[self.steps.len() - 1].output.as_str()
        } else {
            proof {
                reveal_strlit("");
                assert(""@ =~= Seq::<char>::empty());
            }
            ""
        }
    }
}

/// The lines that show earlier outcomes.
pub open spec fn outcome_lines(prior: Seq<OutcomeView>) -> Seq<char>
    decreases prior.len(),
{
    if prior.len() == 0 {
        "\n\n[前序協作]\n"@
    } else {
        outcome_lines(prior.drop_last()) + name_of(prior.last().role) + ": "@ + prior.last().output
            + "\n"@
    }
}

/// The block that shows earlier outcomes to the next role; empty where there are none.
pub open spec fn context_of(prior: Seq<OutcomeView>) -> Seq<char> {
    if prior.len() == 0 {
        Seq::empty()
    } else {
        outcome_lines(prior)
    }
}

/// The block that shows earlier outcomes to the next role.
pub fn chain_context(prior: &Vec<Outcome>) -> (r: String)
    ensures
        r@ == context_of(outcomes_of(prior@)),
{
    if prior.len() == 0 {
        return String::new();
    }
    let ghost all = outcomes_of(prior@);
    let mut s = String::from_str("\n\n[前序協作]\n");
    let mut i: usize = 0;
    while i < prior.len()
        invariant
            i <= prior.len(),
            all == outcomes_of(prior@),
            s@ == outcome_lines(all.take(i as int)),
        decreases prior.len() - i,
    {
        assert(all.take(i + 1).drop_last() =~= all.take(i as int));
        s.append(prior[i].role.name());
        s.append(": ");
        s.append(prior[i].output.as_str());
        s.append("\n");
        i = i + 1;
    }
    assert(all.take(i as int) =~= all);
    s
}

/// The prompt with which a role works on a task.
pub open spec fn task_prompt(role: Role, task: Seq<char>) -> Seq<char> {
    card_of(role) + "\n\n[任務]\n"@ + task
}

/// The prompt with which a role works on a task.
pub fn execution_prompt(role: Role, task: &str) -> (r: String)
    ensures
        r@ == task_prompt(role, task@),
{
    let mut r = String::from_str(role.card());
    r.append("\n\n[任務]\n");
    r.append(task);
    r
}

/// The prompt with which a role of a chain works on a task after the earlier roles.
pub fn chain_prompt(role: Role, task: &str, prior: &Vec<Outcome>) -> (r: String)
    ensures
        r@ == task_prompt(role, task@) + context_of(outcomes_of(prior@)),
{
    let mut r = execution_prompt(role, task);
    let context = chain_context(prior);
    r.append(context.as_str());
    r
}

/// A request that only plans: it goes to the planning agent, which may not ask questions.
pub open spec fn plan_form(prompt: Seq<char>) -> RequestForm {
    RequestForm {
        agent: Some("plan"@),
        tool_overrides: seq![("question"@, false)],
        ..plain_request(prompt)
    }
}

/// A request that only plans.
pub fn plan_request(prompt: String) -> (r: AgentRequest)
    ensures
        r@ == plan_form(prompt@),
{
    let mut r = AgentRequest::plain(prompt);
    r.agent = Some("plan".to_owned());
    r.tool_overrides.push(("question".to_owned(), false));
    assert(r@.tool_overrides =~= seq![("question"@, false)]);
    r
}

/// The request with which a role works on a task on its own.
pub fn execution_request(role: Role, task: &str) -> (r: AgentRequest)
    ensures
        r@ == plain_request(task_prompt(role, task@)),
{
    AgentRequest::plain(execution_prompt(role, task))
}

/// A chain of roles at work on a task.
#[derive(Debug, Clone, PartialEq, Eq)]
pub struct ChainRun {
    pub task: String,
    pub roles: Vec<Role>,
    pub steps: Vec<Outcome>,
}

impl ChainRun {
    /// What the roles produced so far came from them in order.
    pub open spec fn wf(self) -> bool {
        &&& self.steps@.len() <= self.roles@.len()
        &&& forall|i: int| 0 <= i < self.steps@.len() ==> (#[trigger] self.steps@[i]).role == self.roles@[i]
    }

    /// A chain that has not begun.
    pub fn new(task: &str, roles: Vec<Role>) -> (r: ChainRun)
        ensures
            r.wf(),
            r.task@ == task@,
            r.roles == roles,
            r.steps@.len() == 0,
    {
        ChainRun { task: task.to_owned(), roles, steps: Vec::new() }
    }

    /// The request of the next role, which sees what the earlier ones produced; none where all
    /// roles are done.
    pub fn next_request(&self) -> (r: Option<AgentRequest>)
        requires
            self.wf(),
        ensures
            match r {
                None => self.steps@.len() == self.roles@.len(),
                Some(q) => self.steps@.len() < self.roles@.len() && q@ == plain_request(
                    task_prompt(self.roles@[self.steps@.len() as int], self.task@) + context_of(
                        outcomes_of(self.steps@),
                    ),
                ),
            },
    {
        let k: usize = self.steps.len();
        if k < self.roles.len() {
            Some(AgentRequest::plain(chain_prompt(self.roles[k], self.task.as_str(), &self.steps)))
        } else {
            None
        }
    }

    /// Takes the reply to the last request.
    pub fn accept(&mut self, text: String)
        requires
            old(self).wf(),
            old(self).steps@.len() < old(self).roles@.len(),
        ensures
            final(self).wf(),
            final(self).task == old(self).task,
            final(self).roles == old(self).roles,
            final(self).steps@ == old(self).steps@.push(
                Outcome { role: old(self).roles@[old(self).steps@.len() as int], output: text },
            ),
    {
        let k: usize = self.steps.len();
        let role = self.roles[k];
        self.steps.push(Outcome { role, output: text });
    }

    /// What the roles produced.
    pub fn finish(self) -> (r: ChainOutcome)
        ensures
            r.steps == self.steps,
    {
        ChainOutcome { steps: self.steps }
    }
}

} // verus!
