//! What the daemon decides between its scans.
use crate::gateway::config::{
    agent_command_from_env, command_words, db_url_from_env, default_scope, either_text, home_db_url, scope_of_dir, text_or,
    GatewayConfig, Surroundings,
};
use crate::runtime::maintenance::AutoMaintenanceReport;
use crate::scheduler::executor::ClaimedJobOutcome;
use crate::scheduler::store::{fresh_id, stale_count, stale_marked, SchedulerStore, SchedulerView};
use crate::text::{
    begins, borrowed, decimal, decimal_of, opt_str_view, opt_text, same, str_trim, texts, trimmed,
};
use vstd::prelude::*;

verus! {

/// The command line of the daemon.
#[derive(Debug, Clone, PartialEq, Eq)]
pub struct DaemonArgs {
    /// The address of the database.
    pub db: Option<String>,
    /// The command of the agent, its words apart.
    pub agent_cmd: Option<String>,
    /// The scope of the runtime.
    pub scope: Option<String>,
    /// Seconds between scans.
    pub tick_secs: u64,
    /// Seconds before the lock on a job runs out.
    pub lease_secs: i64,
    /// How many jobs a scan takes at most.
    pub limit: i64,
    /// Scan once and stop.
    pub once: bool,
    /// Seconds between passes over the memory.
    pub maintenance_interval_secs: Option<u64>,
}

/// The configuration of the daemon's turns; what the command line leaves open the surroundings
/// decide. Nobody watches these turns, so nothing is streamed.
pub fn resolve_config(cli: &DaemonArgs, env: &Surroundings) -> (r: GatewayConfig)
    ensures
        r.scope@ == text_or(opt_text(cli.scope), scope_of_dir(opt_text(env.current_dir))),
        r.db_url@ == text_or(
            either_text(opt_text(cli.db), opt_text(env.memory_db)),
            home_db_url(opt_text(env.home)),
        ),
        texts(r.agent_command@) == command_words(either_text(opt_text(cli.agent_cmd), opt_text(env.agent_cmd))),
        r.default_model is None,
        r.planner_preferences is None,
        r.thinking == (opt_text(env.thinking) != Some("0"@)),
        r.recall_top_k == 5,
        !r.stream,
{
    let scope = match &cli.scope {
        Some(s) => s.clone(),
        None => default_scope(borrowed(&env.current_dir)),
    };
    let db_url = match &cli.db {
        Some(s) => s.clone(),
        None => db_url_from_env(borrowed(&env.memory_db), borrowed(&env.home)),
    };
    let agent_command = match &cli.agent_cmd {
        Some(s) => agent_command_from_env(Some(s.as_str())),
        None => agent_command_from_env(borrowed(&env.agent_cmd)),
    };
    let quiet = match &env.thinking {
        Some(s) => same(s.as_str(), "0"),
        None => false,
    };
    GatewayConfig {
        scope,
        db_url,
        agent_command,
        default_model: None,
        planner_preferences: None,
        thinking: !quiet,
        recall_top_k: 5,
        stream: false,
    }
}

/// Marks the runs whose process is gone, and gives their number. Whoever scans only once leaves
/// them to the daemon.
pub fn recover_interrupted_runs(store: &mut SchedulerStore, once: bool, now: i64) -> (r: u64)
    requires
        old(store)@.wf(),
    ensures
        final(store)@.wf(),
        once ==> r == 0 && final(store)@ == old(store)@,
        !once ==> r == stale_count(old(store)@.jobs, old(store)@.runs, now) && final(store)@ == (SchedulerView {
            runs: stale_marked(old(store)@.jobs, old(store)@.runs, now),
            ..old(store)@
        }),
{
    if once {
        return 0;
    }
    store.interrupt_stale_runs(now)
}

/// Seconds between passes over the memory: what the command line says, else what the environment
/// says, and never none.
pub fn maintenance_interval(asked: Option<u64>, usual: u64) -> (r: u64)
    ensures
        r == ({
            let n = match asked {
                Some(a) => a,
                None => usual,
            };
            if n == 0 {
                1
            } else {
                n
            }
        }),
{
    let n: u64 = match asked {
        Some(a) => a,
        None => usual,
    };
    if n == 0 {
        1
    } else {
        n
    }
}

/// What is said of a pass over the memory.
pub open spec fn maintenance_said(report: AutoMaintenanceReport) -> Seq<char> {
    "memory maintenance completed scopes="@ + decimal(report.scopes_checked as nat) + " summaries="@ + decimal(
        report.summaries_created as nat,
    ) + " pruned="@ + decimal(report.memories_pruned as nat)
}

/// What is said of a pass over the memory; nothing where it changed nothing.
pub fn maintenance_line(report: &AutoMaintenanceReport) -> (r: Option<String>)
    ensures
        opt_text(r) == (if report.summaries_created > 0 || report.memories_pruned > 0 {
            Some(maintenance_said(*report))
        } else {
            None
        }),
{
    if report.summaries_created == 0 && report.memories_pruned == 0 {
        return None;
    }
    let mut s = String::from_str("memory maintenance completed scopes=");
    let a = decimal_of(report.scopes_checked as u64);
    s.append(a.as_str());
    s.append(" summaries=");
    let b = decimal_of(report.summaries_created as u64);
    s.append(b.as_str());
    s.append(" pruned=");
    let c = decimal_of(report.memories_pruned);
    s.append(c.as_str());
    Some(s)
}

/// What is said of a job that was run.
pub open spec fn outcome_said(job_id: Seq<char>, outcome: ClaimedJobOutcome) -> Seq<char> {
    match outcome {
        ClaimedJobOutcome::LeaseLost(_) => "warning: job "@ + job_id
            + " lease was taken by another worker before completion"@,
        ClaimedJobOutcome::Completed(o) => if o.success {
            "job "@ + job_id + " succeeded"@
        } else {
            "job "@ + job_id + " failed: "@ + o.message@
        },
    }
}

/// What is said of a job that was run.
pub fn outcome_line(job_id: &str, outcome: &ClaimedJobOutcome) -> (r: String)
    ensures
        r@ == outcome_said(job_id@, *outcome),
{
    match outcome {
        ClaimedJobOutcome::LeaseLost(_) => {
            let mut s = String::from_str("warning: job ");
            s.append(job_id);
            s.append(" lease was taken by another worker before completion");
            s
        },
        ClaimedJobOutcome::Completed(o) => {
            let mut s = String::from_str("job ");
            s.append(job_id);
            if o.success {
                s.append(" succeeded");
            } else {
                s.append(" failed: ");
                s.append(o.message.as_str());
            }
            s
        },
    }
}

/// Whether chats are told, and with which token.
#[derive(Debug, Clone, PartialEq, Eq)]
pub enum Notifier {
    /// Chats are told with this token.
    Token(String),
    /// `WUKONG_SCHED_NOTIFY` switches it off.
    SwitchedOff,
    /// There is no token.
    NoToken,
}

/// Whether chats are told: not where it is switched off, nor without a token.
pub fn notifier(switch: Option<&str>, token: &str) -> (r: Notifier)
    ensures
        match r {
            Notifier::SwitchedOff => opt_str_view(switch) == Some("0"@),
            Notifier::NoToken => opt_str_view(switch) != Some("0"@) && trimmed(token@).len() == 0,
            Notifier::Token(t) => opt_str_view(switch) != Some("0"@) && trimmed(token@).len() > 0 && t@ == trimmed(token@),
        },
{
    if let Some(s) = switch {
        if same(s, "0") {
            return Notifier::SwitchedOff;
        }
    }
    let t = str_trim(token);
    if t.as_str().is_empty() {
        Notifier::NoToken
    } else {
        Notifier::Token(t)
    }
}

/// A name that no other worker has: of the process, and drawn anew.
pub fn worker_name(process: u32) -> (r: String)
    ensures
        begins(r@, "schedulerd-"@ + decimal(process as nat) + "-"@),
        r@.len() == ("schedulerd-"@ + decimal(process as nat) + "-"@).len() + 36,
{
    let mut s = String::from_str("schedulerd-");
    let p = decimal_of(process as u64);
    s.append(p.as_str());
    s.append("-");
    let ghost head = s@;
    let id = fresh_id();
    s.append(id.as_str());
    assert(head =~= s@.take(head.len() as int));
    s
}

} // verus!
