//! The session that the last step of a turn continues, and when it is compacted.
use crate::gateway::error::GatewayError;
use crate::memory::sessions::{
    compaction_deferred, holds, lease_end, lease_released, lease_start, lease_taken, link_in, may_take,
    session_compacted, state_in, state_in_has_scope, states_are_kept_by_scope, with_state, StateView,
};
use crate::memory::store::{Store, StoreView};
use crate::runtime::error::{agent_failure, fails_with, WukongError};
use crate::text::{opt_str_view, opt_text, parse_signed, parsed_signed};
use vstd::prelude::*;

verus! {

/// After how many turns a session is compacted where nothing else is said.
pub const DEFAULT_COMPACT_EVERY_TURNS: i64 = 20;

/// For how many seconds a turn takes its session where nothing else is said.
pub const DEFAULT_LEASE_SECS: i64 = 900;

/// When sessions are compacted, and for how long they are taken.
#[derive(Debug, Clone, Copy, PartialEq, Eq, Structural)]
pub struct SessionPolicy {
    /// After so many turns; never where this is zero.
    pub compact_every_turns: i64,
    pub lease_secs: i64,
}

impl Default for SessionPolicy {
    fn default() -> (r: SessionPolicy)
        ensures
            r.compact_every_turns == DEFAULT_COMPACT_EVERY_TURNS,
            r.lease_secs == DEFAULT_LEASE_SECS,
    {
        SessionPolicy {
            compact_every_turns: DEFAULT_COMPACT_EVERY_TURNS,
            lease_secs: DEFAULT_LEASE_SECS,
        }
    }
}

/// The integer that an optional text writes where it is at least the given one; a usual one
/// elsewhere.
pub open spec fn number_or(value: Option<Seq<char>>, least: int, usual: int) -> int {
    match value {
        Some(v) => match parsed_signed(v) {
            Some(n) => if n >= least {
                n
            } else {
                usual
            },
            None => usual,
        },
        None => usual,
    }
}

/// The integer that an optional text writes where it is at least the given one.
pub fn number_from(value: Option<&str>, least: i64, usual: i64) -> (r: i64)
    ensures
        r == number_or(opt_str_view(value), least as int, usual as int),
{
    match value {
        Some(v) => match parse_signed(v) {
            Some(n) => if n >= least {
                n
            } else {
                usual
            },
            None => usual,
        },
        None => usual,
    }
}

/// After how many turns a session is compacted: what the text says, where that is not negative.
pub fn parse_compact_threshold(value: Option<&str>) -> (r: i64)
    ensures
        r == number_or(opt_str_view(value), 0, DEFAULT_COMPACT_EVERY_TURNS as int),
{
    number_from(value, 0, DEFAULT_COMPACT_EVERY_TURNS)
}

impl SessionPolicy {
    /// The policy of the environment: `WUKONG_SESSION_COMPACT_EVERY_TURNS` and
    /// `WUKONG_SESSION_LEASE_SECS`.
    pub fn from_env(compact_every: Option<&str>, lease: Option<&str>) -> (r: SessionPolicy)
        ensures
            r.compact_every_turns == number_or(
                opt_str_view(compact_every),
                0,
                DEFAULT_COMPACT_EVERY_TURNS as int,
            ),
            r.lease_secs == number_or(opt_str_view(lease), 1, DEFAULT_LEASE_SECS as int),
    {
        SessionPolicy {
            compact_every_turns: parse_compact_threshold(compact_every),
            lease_secs: number_from(lease, 1, DEFAULT_LEASE_SECS),
        }
    }
}

/// The agent cannot compact sessions: it does not know the request.
pub open spec fn compaction_unknown(e: GatewayError) -> bool {
    match e {
        GatewayError::AgentFailed { code, .. } => code == Some(404i32) || code == Some(405i32),
        _ => false,
    }
}

/// Whether the agent cannot compact sessions.
pub fn is_unsupported_compaction(error: &GatewayError) -> (r: bool)
    ensures
        r == compaction_unknown(*error),
{
    match error {
        GatewayError::AgentFailed { code, .. } => match code {
            Some(c) => *c == 404 || *c == 405,
            None => false,
        },
        _ => false,
    }
}

/// The session that the last step of a turn continues.
#[derive(Debug, Clone, PartialEq, Eq)]
pub struct SessionPreparation {
    /// Who holds the lease.
    pub owner: String,
    pub lease_secs: i64,
    /// The session; none for a new one.
    pub session_id: Option<String>,
    /// The session that the new one takes the place of.
    pub rotated_from: Option<String>,
}

/// The mathematical form of a preparation.
pub struct PreparationView {
    pub owner: Seq<char>,
    pub lease_secs: i64,
    pub session_id: Option<Seq<char>>,
    pub rotated_from: Option<Seq<char>>,
}

impl View for SessionPreparation {
    type V = PreparationView;

    open spec fn view(&self) -> PreparationView {
        PreparationView {
            owner: self.owner@,
            lease_secs: self.lease_secs,
            session_id: opt_text(self.session_id),
            rotated_from: opt_text(self.rotated_from),
        }
    }
}

/// What is to be done before the last step.
#[derive(Debug, Clone, PartialEq, Eq)]
pub enum SessionStart {
    Ready(SessionPreparation),
    /// The session is to be compacted first.
    Compact(String),
}

/// The text of the error that somebody else has the session.
pub open spec fn unavailable_text(scope: Seq<char>) -> Seq<char> {
    "session lease unavailable for scope "@ + scope
}

/// The error that somebody else has the session.
pub fn stale_lease_error(scope: &str) -> (r: WukongError)
    ensures
        fails_with(r, unavailable_text(scope@)),
{
    let mut s = String::from_str("session lease unavailable for scope ");
    s.append(scope);
    agent_failure(s)
}

/// The state of which a lease is asked.
pub open spec fn state_before_lease(s: StoreView, scope: Seq<char>, now: i64) -> StateView {
    lease_start(state_in(s.states, scope), link_in(s.sessions, scope), scope, now)
}

/// The tables with another session state.
pub open spec fn with_session_state(s: StoreView, v: StateView) -> StoreView {
    StoreView { states: with_state(s.states, v), ..s }
}

/// The tables after an owner gave back the lease, where it was the owner's.
pub open spec fn lease_given_back(s: StoreView, scope: Seq<char>, owner: Seq<char>, now: i64) -> StoreView {
    match state_in(s.states, scope) {
        Some(v) => if v.lease_owner == Some(owner) {
            with_session_state(s, lease_released(v, now))
        } else {
            s
        },
        None => s,
    }
}

/// A session is due for compaction.
pub open spec fn compaction_due(v: StateView, policy: SessionPolicy) -> bool {
    policy.compact_every_turns > 0 && v.session_id is Some && v.turn_count >= policy.compact_every_turns
}

/// Takes the session of a scope for a turn, and decides whether it is to be compacted first.
pub fn begin_final_session(store: &mut Store, scope: &str, owner: &str, policy: SessionPolicy, now: i64) -> (r: Result<
    SessionStart,
    WukongError,
>)
    requires
        old(store)@.wf(),
        lease_end(now as int, policy.lease_secs as int) <= i64::MAX,
    ensures
        final(store)@.wf(),
        ({
            let start = state_before_lease(old(store)@, scope@, now);
            if !may_take(start, owner@, now as int) {
                &&& r is Err && fails_with(r->Err_0, unavailable_text(scope@))
                &&& final(store)@ == old(store)@
            } else {
                let taken = lease_taken(start, owner@, now, policy.lease_secs);
                &&& final(store)@ == with_session_state(old(store)@, taken)
                &&& r is Ok
                &&& if compaction_due(taken, policy) {
                    r->Ok_0 matches SessionStart::Compact(id) && taken.session_id == Some(id@)
                } else {
                    r->Ok_0 matches SessionStart::Ready(p) && p@ == (PreparationView {
                        owner: owner@,
                        lease_secs: policy.lease_secs,
                        session_id: taken.session_id,
                        rotated_from: None,
                    })
                }
            }
        }),
{
    match store.acquire_agent_session_lease(scope, owner, now, policy.lease_secs) {
        None => Err(stale_lease_error(scope)),
        Some(state) => {
            let due = policy.compact_every_turns > 0 && state.turn_count >= policy.compact_every_turns;
            match state.session_id {
                Some(id) => if due {
                    Ok(SessionStart::Compact(id))
                } else {
                    Ok(
                        SessionStart::Ready(
                            SessionPreparation {
                                owner: owner.to_owned(),
                                lease_secs: policy.lease_secs,
                                session_id: Some(id),
                                rotated_from: None,
                            },
                        ),
                    )
                },
                None => Ok(
                    SessionStart::Ready(
                        SessionPreparation {
                            owner: owner.to_owned(),
                            lease_secs: policy.lease_secs,
                            session_id: None,
                            rotated_from: None,
                        },
                    ),
                ),
            }
        },
    }
}

/// The tables after a compaction that the agent carried out: the turns start anew, and the owner
/// holds the lease again.
pub open spec fn after_compaction(s: StoreView, v: StateView, owner: Seq<char>, policy: SessionPolicy, now: i64) -> StoreView {
    let done = with_session_state(s, session_compacted(v, now));
    with_session_state(done, lease_taken(session_compacted(v, now), owner, now, policy.lease_secs))
}

/// Goes on after the agent was asked to compact a session. Where it cannot, a new session takes
/// the place of the old one. Where it failed, the session goes on as it is and the next attempt is
/// put off.
pub fn finish_compaction(
    store: &mut Store,
    scope: &str,
    owner: &str,
    policy: SessionPolicy,
    session_id: &str,
    failure: Option<&GatewayError>,
    now: i64,
) -> (r: Result<SessionPreparation, WukongError>)
    requires
        old(store)@.wf(),
        lease_end(now as int, policy.lease_secs as int) <= i64::MAX,
    ensures
        final(store)@.wf(),
        ({
            let before = old(store)@;
            let state = state_in(before.states, scope@);
            let held = state is Some && holds(state->0, owner@, now as int);
            let prepared = PreparationView {
                owner: owner@,
                lease_secs: policy.lease_secs,
                session_id: Some(session_id@),
                rotated_from: None,
            };
            match failure {
                None => if held && state->0.session_id == Some(session_id@) {
                    &&& r is Ok && r->Ok_0@ == prepared
                    &&& final(store)@ == after_compaction(before, state->0, owner@, policy, now)
                } else {
                    &&& r is Err && fails_with(r->Err_0, unavailable_text(scope@))
                    &&& final(store)@ == lease_given_back(before, scope@, owner@, now)
                },
                Some(e) => if compaction_unknown(*e) {
                    &&& r is Ok && r->Ok_0@ == (PreparationView {
                        session_id: None,
                        rotated_from: Some(session_id@),
                        ..prepared
                    })
                    &&& final(store)@ == before
                } else {
                    &&& r is Ok && r->Ok_0@ == prepared
                    &&& final(store)@ == (if held {
                        with_session_state(before, compaction_deferred(state->0, now))
                    } else {
                        before
                    })
                },
            }
        }),
{
    match failure {
        None => {
            let ghost before = store@;
            let marked = store.mark_agent_session_compacted(scope, owner, session_id, now);
            if !marked {
                let _ = store.release_agent_session_lease(scope, owner, now);
                return Err(stale_lease_error(scope));
            }
            proof {
                let v = state_in(before.states, scope@)->0;
                state_in_has_scope(before.states, scope@);
                states_are_kept_by_scope(before.states, session_compacted(v, now), scope@);
            }
            match store.acquire_agent_session_lease(scope, owner, now, policy.lease_secs) {
                None => Err(stale_lease_error(scope)),
                Some(state) => Ok(
                    SessionPreparation {
                        owner: owner.to_owned(),
                        lease_secs: policy.lease_secs,
                        session_id: state.session_id,
                        rotated_from: None,
                    },
                ),
            }
        },
        Some(e) => {
            if is_unsupported_compaction(e) {
                return Ok(
                    SessionPreparation {
                        owner: owner.to_owned(),
                        lease_secs: policy.lease_secs,
                        session_id: None,
                        rotated_from: Some(session_id.to_owned()),
                    },
                );
            }
            let _ = store.defer_agent_session_compaction(scope, owner, now);
            Ok(
                SessionPreparation {
                    owner: owner.to_owned(),
                    lease_secs: policy.lease_secs,
                    session_id: Some(session_id.to_owned()),
                    rotated_from: None,
                },
            )
        },
    }
}

/// After every attempt at compaction that did not give up the session, the next one is a full
/// number of turns away.
pub proof fn attempts_are_spaced(v: StateView, policy: SessionPolicy, now: i64)
    requires
        compaction_due(v, policy),
    ensures
        !compaction_due(compaction_deferred(v, now), policy),
        !compaction_due(session_compacted(v, now), policy),
{
}

} // verus!
