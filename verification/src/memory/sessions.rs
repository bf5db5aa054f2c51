//! Which agent session a scope continues, and who may continue it.
//!
//! A scope has one state. Whoever wants to continue its session takes a lease on it. A lease keeps
//! everybody else out until it is given back or has run out.
use crate::memory::store::{Store, StoreView};
use crate::text::{clone_opt, opt_text, same};
use vstd::prelude::*;

verus! {

/// The state of a scope's agent session.
#[derive(Debug, Clone, PartialEq, Eq)]
pub struct AgentSessionState {
    pub scope: String,
    pub session_id: Option<String>,
    /// The turns since the session was made or last compacted.
    pub turn_count: i64,
    pub lease_owner: Option<String>,
    pub lease_until: Option<i64>,
    pub last_compacted_at: Option<i64>,
    pub updated_at: i64,
}

/// The mathematical form of a session state.
pub struct StateView {
    pub scope: Seq<char>,
    pub session_id: Option<Seq<char>>,
    pub turn_count: i64,
    pub lease_owner: Option<Seq<char>>,
    pub lease_until: Option<i64>,
    pub last_compacted_at: Option<i64>,
    pub updated_at: i64,
}

impl View for AgentSessionState {
    type V = StateView;

    open spec fn view(&self) -> StateView {
        StateView {
            scope: self.scope@,
            session_id: opt_text(self.session_id),
            turn_count: self.turn_count,
            lease_owner: opt_text(self.lease_owner),
            lease_until: self.lease_until,
            last_compacted_at: self.last_compacted_at,
            updated_at: self.updated_at,
        }
    }
}

/// The mathematical forms of session states.
pub open spec fn states_of(v: Seq<AgentSessionState>) -> Seq<StateView> {
    v.map_values(|s: AgentSessionState| s@)
}

/// The mathematical form of an optional session state.
pub open spec fn opt_state(o: Option<AgentSessionState>) -> Option<StateView> {
    match o {
        Some(s) => Some(s@),
        None => None,
    }
}

/// The agent session that a scope continues.
#[derive(Debug, Clone, PartialEq, Eq)]
pub struct AgentSession {
    pub scope: String,
    pub session_id: String,
    pub updated_at: i64,
}

/// The mathematical form of a scope's session.
pub struct LinkView {
    pub scope: Seq<char>,
    pub session_id: Seq<char>,
    pub updated_at: i64,
}

impl View for AgentSession {
    type V = LinkView;

    open spec fn view(&self) -> LinkView {
        LinkView { scope: self.scope@, session_id: self.session_id@, updated_at: self.updated_at }
    }
}

/// The mathematical forms of sessions.
pub open spec fn links_of(v: Seq<AgentSession>) -> Seq<LinkView> {
    v.map_values(|l: AgentSession| l@)
}

// ---------------------------------------------------------------------------
// One row per scope
// ---------------------------------------------------------------------------

/// No scope has two states.
pub open spec fn one_state_per_scope(s: Seq<StateView>) -> bool {
    forall|i: int, j: int| 0 <= i < j < s.len() ==> (#[trigger] s[i]).scope != (#[trigger] s[j]).scope
}

/// No scope has two sessions.
pub open spec fn one_link_per_scope(s: Seq<LinkView>) -> bool {
    forall|i: int, j: int| 0 <= i < j < s.len() ==> (#[trigger] s[i]).scope != (#[trigger] s[j]).scope
}

/// The position of a scope's state, or the length where it has none.
pub open spec fn state_slot(s: Seq<StateView>, scope: Seq<char>) -> int
    decreases s.len(),
{
    if s.len() == 0 || s[0].scope == scope {
        0
    } else {
        1 + state_slot(s.drop_first(), scope)
    }
}

/// A scope's state.
pub open spec fn state_in(s: Seq<StateView>, scope: Seq<char>) -> Option<StateView> {
    let i = state_slot(s, scope);
    if i < s.len() {
        Some(s[i])
    } else {
        None
    }
}

/// The states with one in the place of its scope's former one.
pub open spec fn with_state(s: Seq<StateView>, v: StateView) -> Seq<StateView> {
    let i = state_slot(s, v.scope);
    if i < s.len() {
        s.update(i, v)
    } else {
        s.push(v)
    }
}

/// The states without that of a scope.
pub open spec fn without_state(s: Seq<StateView>, scope: Seq<char>) -> Seq<StateView>
    decreases s.len(),
{
    if s.len() == 0 {
        Seq::empty()
    } else if s.last().scope == scope {
        without_state(s.drop_last(), scope)
    } else {
        without_state(s.drop_last(), scope).push(s.last())
    }
}

/// The position of a scope's session, or the length where it has none.
pub open spec fn link_slot(s: Seq<LinkView>, scope: Seq<char>) -> int
    decreases s.len(),
{
    if s.len() == 0 || s[0].scope == scope {
        0
    } else {
        1 + link_slot(s.drop_first(), scope)
    }
}

/// A scope's session.
pub open spec fn link_in(s: Seq<LinkView>, scope: Seq<char>) -> Option<LinkView> {
    let i = link_slot(s, scope);
    if i < s.len() {
        Some(s[i])
    } else {
        None
    }
}

/// The sessions with one in the place of its scope's former one.
pub open spec fn with_link(s: Seq<LinkView>, v: LinkView) -> Seq<LinkView> {
    let i = link_slot(s, v.scope);
    if i < s.len() {
        s.update(i, v)
    } else {
        s.push(v)
    }
}

/// The sessions without that of a scope.
pub open spec fn without_link(s: Seq<LinkView>, scope: Seq<char>) -> Seq<LinkView>
    decreases s.len(),
{
    if s.len() == 0 {
        Seq::empty()
    } else if s.last().scope == scope {
        without_link(s.drop_last(), scope)
    } else {
        without_link(s.drop_last(), scope).push(s.last())
    }
}

proof fn state_slot_is_first(s: Seq<StateView>, scope: Seq<char>)
    ensures
        0 <= state_slot(s, scope) <= s.len(),
        forall|k: int| 0 <= k < state_slot(s, scope) ==> (#[trigger] s[k]).scope != scope,
        state_slot(s, scope) < s.len() ==> s[state_slot(s, scope)].scope == scope,
    decreases s.len(),
{
    if s.len() > 0 && s[0].scope != scope {
        let d = s.drop_first();
        state_slot_is_first(d, scope);
        assert forall|k: int| 0 <= k < state_slot(s, scope) implies (#[trigger] s[k]).scope != scope by {
            if k > 0 {
                assert(d[k - 1] == s[k]);
            }
        }
    }
}

/// A scope's state names the scope.
pub proof fn state_in_has_scope(s: Seq<StateView>, scope: Seq<char>)
    ensures
        state_in(s, scope) is Some ==> state_in(s, scope)->0.scope == scope,
{
    state_slot_is_first(s, scope);
}

proof fn link_slot_is_first(s: Seq<LinkView>, scope: Seq<char>)
    ensures
        0 <= link_slot(s, scope) <= s.len(),
        forall|k: int| 0 <= k < link_slot(s, scope) ==> (#[trigger] s[k]).scope != scope,
        link_slot(s, scope) < s.len() ==> s[link_slot(s, scope)].scope == scope,
    decreases s.len(),
{
    if s.len() > 0 && s[0].scope != scope {
        let d = s.drop_first();
        link_slot_is_first(d, scope);
        assert forall|k: int| 0 <= k < link_slot(s, scope) implies (#[trigger] s[k]).scope != scope by {
            if k > 0 {
                assert(d[k - 1] == s[k]);
            }
        }
    }
}

proof fn state_slot_at(s: Seq<StateView>, scope: Seq<char>, i: int)
    requires
        0 <= i <= s.len(),
        forall|k: int| 0 <= k < i ==> (#[trigger] s[k]).scope != scope,
        i < s.len() ==> s[i].scope == scope,
    ensures
        state_slot(s, scope) == i,
{
    state_slot_is_first(s, scope);
    let j = state_slot(s, scope);
    if j < i {
        assert(s[j].scope != scope);
    } else if i < j {
        assert(s[i].scope != scope);
    }
}

proof fn link_slot_at(s: Seq<LinkView>, scope: Seq<char>, i: int)
    requires
        0 <= i <= s.len(),
        forall|k: int| 0 <= k < i ==> (#[trigger] s[k]).scope != scope,
        i < s.len() ==> s[i].scope == scope,
    ensures
        link_slot(s, scope) == i,
{
    link_slot_is_first(s, scope);
    let j = link_slot(s, scope);
    if j < i {
        assert(s[j].scope != scope);
    } else if i < j {
        assert(s[i].scope != scope);
    }
}

/// Reading gives back what was written, and writing leaves the other scopes alone.
pub proof fn states_are_kept_by_scope(s: Seq<StateView>, v: StateView, other: Seq<char>)
    ensures
        state_in(with_state(s, v), v.scope) == Some(v),
        other != v.scope ==> state_in(with_state(s, v), other) == state_in(s, other),
        one_state_per_scope(s) ==> one_state_per_scope(with_state(s, v)),
{
    let i = state_slot(s, v.scope);
    let t = with_state(s, v);
    state_slot_is_first(s, v.scope);
    state_slot_at(t, v.scope, i);
    if other != v.scope {
        let j = state_slot(s, other);
        state_slot_is_first(s, other);
        if j < s.len() {
            state_slot_at(t, other, j);
        } else {
            state_slot_at(t, other, t.len() as int);
        }
    }
    if one_state_per_scope(s) {
        assert forall|a: int, b: int| 0 <= a < b < t.len() implies (#[trigger] t[a]).scope != (#[trigger] t[b]).scope by {
            if i < s.len() {
                assert(s[a].scope != s[b].scope);
            } else if b < s.len() {
                assert(s[a].scope != s[b].scope);
            } else {
                assert(s[a].scope != v.scope);
            }
        }
    }
}

/// Reading gives back what was written, and writing leaves the other scopes alone.
pub proof fn sessions_are_kept_by_scope(s: Seq<LinkView>, v: LinkView, other: Seq<char>)
    ensures
        link_in(with_link(s, v), v.scope) == Some(v),
        other != v.scope ==> link_in(with_link(s, v), other) == link_in(s, other),
        one_link_per_scope(s) ==> one_link_per_scope(with_link(s, v)),
{
    let i = link_slot(s, v.scope);
    let t = with_link(s, v);
    link_slot_is_first(s, v.scope);
    link_slot_at(t, v.scope, i);
    if other != v.scope {
        let j = link_slot(s, other);
        link_slot_is_first(s, other);
        if j < s.len() {
            link_slot_at(t, other, j);
        } else {
            link_slot_at(t, other, t.len() as int);
        }
    }
    if one_link_per_scope(s) {
        assert forall|a: int, b: int| 0 <= a < b < t.len() implies (#[trigger] t[a]).scope != (#[trigger] t[b]).scope by {
            if i < s.len() {
                assert(s[a].scope != s[b].scope);
            } else if b < s.len() {
                assert(s[a].scope != s[b].scope);
            } else {
                assert(s[a].scope != v.scope);
            }
        }
    }
}

proof fn without_state_facts(s: Seq<StateView>, scope: Seq<char>)
    ensures
        forall|i: int|
            0 <= i < without_state(s, scope).len() ==> (#[trigger] without_state(s, scope)[i]).scope != scope
                && exists|k: int| 0 <= k < s.len() && s[k] == without_state(s, scope)[i],
        one_state_per_scope(s) ==> one_state_per_scope(without_state(s, scope)),
    decreases s.len(),
{
    if s.len() > 0 {
        let d = s.drop_last();
        let w = without_state(d, scope);
        let t = without_state(s, scope);
        without_state_facts(d, scope);
        assert forall|i: int| 0 <= i < t.len() implies (#[trigger] t[i]).scope != scope && exists|k: int|
            0 <= k < s.len() && s[k] == t[i] by {
            if i < w.len() {
                assert(t[i] == w[i]);
                let k = choose|k: int| 0 <= k < d.len() && d[k] == w[i];
                assert(s[k] == t[i]);
            } else {
                assert(s[s.len() - 1] == t[i]);
            }
        }
        if one_state_per_scope(s) {
            assert(one_state_per_scope(d)) by {
                assert forall|a: int, b: int| 0 <= a < b < d.len() implies (#[trigger] d[a]).scope != (
                #[trigger] d[b]).scope by {
                    assert(s[a].scope != s[b].scope);
                }
            }
            assert forall|a: int, b: int| 0 <= a < b < t.len() implies (#[trigger] t[a]).scope != (
            #[trigger] t[b]).scope by {
                assert(t[a] == w[a]);
                if b < w.len() {
                    assert(t[b] == w[b]);
                } else {
                    let k = choose|k: int| 0 <= k < d.len() && d[k] == w[a];
                    assert(s[k].scope != s[s.len() - 1].scope);
                }
            }
        }
    }
}

proof fn without_link_facts(s: Seq<LinkView>, scope: Seq<char>)
    ensures
        forall|i: int|
            0 <= i < without_link(s, scope).len() ==> (#[trigger] without_link(s, scope)[i]).scope != scope
                && exists|k: int| 0 <= k < s.len() && s[k] == without_link(s, scope)[i],
        one_link_per_scope(s) ==> one_link_per_scope(without_link(s, scope)),
    decreases s.len(),
{
    if s.len() > 0 {
        let d = s.drop_last();
        let w = without_link(d, scope);
        let t = without_link(s, scope);
        without_link_facts(d, scope);
        assert forall|i: int| 0 <= i < t.len() implies (#[trigger] t[i]).scope != scope && exists|k: int|
            0 <= k < s.len() && s[k] == t[i] by {
            if i < w.len() {
                assert(t[i] == w[i]);
                let k = choose|k: int| 0 <= k < d.len() && d[k] == w[i];
                assert(s[k] == t[i]);
            } else {
                assert(s[s.len() - 1] == t[i]);
            }
        }
        if one_link_per_scope(s) {
            assert(one_link_per_scope(d)) by {
                assert forall|a: int, b: int| 0 <= a < b < d.len() implies (#[trigger] d[a]).scope != (
                #[trigger] d[b]).scope by {
                    assert(s[a].scope != s[b].scope);
                }
            }
            assert forall|a: int, b: int| 0 <= a < b < t.len() implies (#[trigger] t[a]).scope != (
            #[trigger] t[b]).scope by {
                assert(t[a] == w[a]);
                if b < w.len() {
                    assert(t[b] == w[b]);
                } else {
                    let k = choose|k: int| 0 <= k < d.len() && d[k] == w[a];
                    assert(s[k].scope != s[s.len() - 1].scope);
                }
            }
        }
    }
}

// ---------------------------------------------------------------------------
// Leases
// ---------------------------------------------------------------------------

/// A state without lease and turns.
pub open spec fn fresh_state(scope: Seq<char>, session_id: Option<Seq<char>>, at: i64) -> StateView {
    StateView {
        scope,
        session_id,
        turn_count: 0,
        lease_owner: None,
        lease_until: None,
        last_compacted_at: None,
        updated_at: at,
    }
}

/// The owner holds a lease that has not run out.
pub open spec fn holds(s: StateView, owner: Seq<char>, now: int) -> bool {
    s.lease_owner == Some(owner) && s.lease_until is Some && s.lease_until->0 > now
}

/// The owner may take the lease: nobody has it, it has run out, or it is the owner's own.
pub open spec fn may_take(s: StateView, owner: Seq<char>, now: int) -> bool {
    s.lease_until is None || s.lease_until->0 <= now || s.lease_owner == Some(owner)
}

/// When a lease taken now runs out: after so many seconds, and at least one.
pub open spec fn lease_end(now: int, lease_secs: int) -> int {
    now + (if lease_secs < 1 {
        1
    } else {
        lease_secs
    })
}

/// The state after a session was set: turns and compaction are forgotten with the former session,
/// and the lease is given back.
pub open spec fn session_set(s: Option<StateView>, scope: Seq<char>, id: Seq<char>, now: i64) -> StateView {
    match s {
        None => fresh_state(scope, Some(id), now),
        Some(o) => StateView {
            scope,
            session_id: Some(id),
            turn_count: if o.session_id == Some(id) {
                o.turn_count
            } else {
                0
            },
            last_compacted_at: if o.session_id == Some(id) {
                o.last_compacted_at
            } else {
                None
            },
            lease_owner: None,
            lease_until: None,
            updated_at: now,
        },
    }
}

/// The state that a lease is asked of: a scope without state starts with the session it
/// continues.
pub open spec fn lease_start(s: Option<StateView>, link: Option<LinkView>, scope: Seq<char>, now: i64) -> StateView {
    match s {
        Some(o) => o,
        None => match link {
            Some(l) => fresh_state(scope, Some(l.session_id), l.updated_at),
            None => fresh_state(scope, None, now),
        },
    }
}

/// The state after the owner has taken the lease.
pub open spec fn lease_taken(s: StateView, owner: Seq<char>, now: i64, lease_secs: i64) -> StateView {
    StateView {
        lease_owner: Some(owner),
        lease_until: Some(lease_end(now as int, lease_secs as int) as i64),
        updated_at: now,
        ..s
    }
}

/// The state after its owner has asked for more time.
pub open spec fn lease_renewed(s: StateView, now: i64, lease_secs: i64) -> StateView {
    StateView {
        lease_until: Some(lease_end(now as int, lease_secs as int) as i64),
        updated_at: now,
        ..s
    }
}

/// The state after a turn: one turn more, in a new session where one is given, and no lease.
pub open spec fn turn_finished(s: StateView, id: Option<Seq<char>>, now: i64) -> StateView {
    StateView {
        session_id: match id {
            Some(i) => Some(i),
            None => s.session_id,
        },
        turn_count: (s.turn_count + 1) as i64,
        lease_owner: None,
        lease_until: None,
        updated_at: now,
        ..s
    }
}

/// The state after the lease was given back.
pub open spec fn lease_released(s: StateView, now: i64) -> StateView {
    StateView { lease_owner: None, lease_until: None, updated_at: now, ..s }
}

/// The state after a compaction: no turns, and no lease.
pub open spec fn session_compacted(s: StateView, now: i64) -> StateView {
    StateView {
        turn_count: 0,
        last_compacted_at: Some(now),
        lease_owner: None,
        lease_until: None,
        updated_at: now,
        ..s
    }
}

/// The state after a compaction that failed: no turns, so that the next attempt is as far off as
/// after a compaction, and the lease as it was.
pub open spec fn compaction_deferred(s: StateView, now: i64) -> StateView {
    StateView { turn_count: 0, updated_at: now, ..s }
}

fn copy_state(s: &AgentSessionState) -> (r: AgentSessionState)
    ensures
        r@ == s@,
{
    AgentSessionState {
        scope: s.scope.clone(),
        session_id: clone_opt(&s.session_id),
        turn_count: s.turn_count,
        lease_owner: clone_opt(&s.lease_owner),
        lease_until: s.lease_until,
        last_compacted_at: s.last_compacted_at,
        updated_at: s.updated_at,
    }
}

fn copy_link(l: &AgentSession) -> (r: AgentSession)
    ensures
        r@ == l@,
{
    AgentSession { scope: l.scope.clone(), session_id: l.session_id.clone(), updated_at: l.updated_at }
}

fn is_text(o: &Option<String>, s: &str) -> (r: bool)
    ensures
        r == (opt_text(*o) == Some(s@)),
{
    match o {
        Some(t) => same(t.as_str(), s),
        None => false,
    }
}

fn is_held(s: &AgentSessionState, owner: &str, now: i64) -> (r: bool)
    ensures
        r == holds(s@, owner@, now as int),
{
    match s.lease_until {
        Some(until) => until > now && is_text(&s.lease_owner, owner),
        None => false,
    }
}

fn end_of_lease(now: i64, lease_secs: i64) -> (r: i64)
    requires
        lease_end(now as int, lease_secs as int) <= i64::MAX,
    ensures
        r == lease_end(now as int, lease_secs as int),
{
    if lease_secs < 1 {
        now + 1
    } else {
        now + lease_secs
    }
}

impl Store {
    fn state_position(&self, scope: &str) -> (r: usize)
        ensures
            r == state_slot(self@.states, scope@),
            r <= self.states@.len(),
    {
        let mut i: usize = 0;
        while i < self.states.len()
            invariant
                i <= self.states.len(),
                forall|k: int| 0 <= k < i ==> (#[trigger] self@.states[k]).scope != scope@,
            decreases self.states.len() - i,
        {
            if same(self.states[i].scope.as_str(), scope) {
                proof {
                    state_slot_at(self@.states, scope@, i as int);
                }
                return i;
            }
            i = i + 1;
        }
        proof {
            state_slot_at(self@.states, scope@, i as int);
        }
        i
    }

    fn link_position(&self, scope: &str) -> (r: usize)
        ensures
            r == link_slot(self@.sessions, scope@),
            r <= self.sessions@.len(),
    {
        let mut i: usize = 0;
        while i < self.sessions.len()
            invariant
                i <= self.sessions.len(),
                forall|k: int| 0 <= k < i ==> (#[trigger] self@.sessions[k]).scope != scope@,
            decreases self.sessions.len() - i,
        {
            if same(self.sessions[i].scope.as_str(), scope) {
                proof {
                    link_slot_at(self@.sessions, scope@, i as int);
                }
                return i;
            }
            i = i + 1;
        }
        proof {
            link_slot_at(self@.sessions, scope@, i as int);
        }
        i
    }

    fn put_state(&mut self, s: AgentSessionState)
        requires
            old(self)@.wf(),
        ensures
            final(self)@ == (StoreView { states: with_state(old(self)@.states, s@), ..old(self)@ }),
            final(self)@.wf(),
    {
        let i: usize = self.state_position(s.scope.as_str());
        proof {
            states_are_kept_by_scope(self@.states, s@, s@.scope);
        }
        let ghost before = self@.states;
        let ghost v = s@;
        if i < self.states.len() {
            self.states.set(i, s);
            assert(self@.states =~= before.update(i as int, v));
        } else {
            self.states.push(s);
            assert(self@.states =~= before.push(v));
        }
    }

    fn put_link(&mut self, l: AgentSession)
        requires
            old(self)@.wf(),
        ensures
            final(self)@ == (StoreView { sessions: with_link(old(self)@.sessions, l@), ..old(self)@ }),
            final(self)@.wf(),
    {
        let i: usize = self.link_position(l.scope.as_str());
        proof {
            sessions_are_kept_by_scope(self@.sessions, l@, l@.scope);
        }
        let ghost before = self@.sessions;
        let ghost v = l@;
        if i < self.sessions.len() {
            self.sessions.set(i, l);
            assert(self@.sessions =~= before.update(i as int, v));
        } else {
            self.sessions.push(l);
            assert(self@.sessions =~= before.push(v));
        }
    }

    /// A scope's session state.
    pub fn agent_session_state(&self, scope: &str) -> (r: Option<AgentSessionState>)
        ensures
            opt_state(r) == state_in(self@.states, scope@),
    {
        let i: usize = self.state_position(scope);
        if i < self.states.len() {
            assert(self@.states[i as int] == self.states@[i as int]@);
            Some(copy_state(&self.states[i]))
        } else {
            None
        }
    }

    /// The session that a scope continues.
    pub fn agent_session(&self, scope: &str) -> (r: Option<String>)
        ensures
            opt_text(r) == (match state_in(self@.states, scope@) {
                Some(s) => s.session_id,
                None => None,
            }),
    {
        match self.agent_session_state(scope) {
            Some(s) => s.session_id,
            None => None,
        }
    }

    /// Lets a scope continue another session.
    pub fn set_agent_session(&mut self, scope: &str, session_id: &str, now: i64)
        requires
            old(self)@.wf(),
        ensures
            final(self)@ == (StoreView {
                states: with_state(
                    old(self)@.states,
                    session_set(state_in(old(self)@.states, scope@), scope@, session_id@, now),
                ),
                sessions: with_link(
                    old(self)@.sessions,
                    LinkView { scope: scope@, session_id: session_id@, updated_at: now },
                ),
                ..old(self)@
            }),
            final(self)@.wf(),
    {
        let former = self.agent_session_state(scope);
        self.put_link(
            AgentSession { scope: scope.to_owned(), session_id: session_id.to_owned(), updated_at: now },
        );
        let mut next = AgentSessionState {
            scope: scope.to_owned(),
            session_id: Some(session_id.to_owned()),
            turn_count: 0,
            lease_owner: None,
            lease_until: None,
            last_compacted_at: None,
            updated_at: now,
        };
        if let Some(o) = former {
            if is_text(&o.session_id, session_id) {
                next.turn_count = o.turn_count;
                next.last_compacted_at = o.last_compacted_at;
            }
        }
        self.put_state(next);
    }

    /// Takes the lease on a scope's session, where the owner may have it.
    pub fn acquire_agent_session_lease(
        &mut self,
        scope: &str,
        owner: &str,
        now: i64,
        lease_secs: i64,
    ) -> (r: Option<AgentSessionState>)
        requires
            old(self)@.wf(),
            lease_end(now as int, lease_secs as int) <= i64::MAX,
        ensures
            ({
                let start = lease_start(
                    state_in(old(self)@.states, scope@),
                    link_in(old(self)@.sessions, scope@),
                    scope@,
                    now,
                );
                if may_take(start, owner@, now as int) {
                    let taken = lease_taken(start, owner@, now, lease_secs);
                    opt_state(r) == Some(taken) && final(self)@ == (StoreView {
                        states: with_state(old(self)@.states, taken),
                        ..old(self)@
                    })
                } else {
                    r is None && final(self)@ == old(self)@
                }
            }),
            final(self)@.wf(),
    {
        proof {
            state_slot_is_first(self@.states, scope@);
            link_slot_is_first(self@.sessions, scope@);
        }
        let mut next = match self.agent_session_state(scope) {
            Some(s) => s,
            None => {
                let i: usize = self.link_position(scope);
                let linked = i < self.sessions.len();
                let session_id = if linked {
                    assert(self@.sessions[i as int] == self.sessions@[i as int]@);
                    Some(self.sessions[i].session_id.clone())
                } else {
                    None
                };
                let at: i64 = if linked {
                    self.sessions[i].updated_at
                } else {
                    now
                };
                AgentSessionState {
                    scope: scope.to_owned(),
                    session_id,
                    turn_count: 0,
                    lease_owner: None,
                    lease_until: None,
                    last_compacted_at: None,
                    updated_at: at,
                }
            },
        };
        let free = match next.lease_until {
            None => true,
            Some(until) => until <= now || is_text(&next.lease_owner, owner),
        };
        if !free {
            return None;
        }
        next.lease_owner = Some(owner.to_owned());
        next.lease_until = Some(end_of_lease(now, lease_secs));
        next.updated_at = now;
        let answer = copy_state(&next);
        self.put_state(next);
        Some(answer)
    }

    /// Gives the owner of a lease that has not run out more time.
    pub fn renew_agent_session_lease(&mut self, scope: &str, owner: &str, now: i64, lease_secs: i64) -> (r: bool)
        requires
            old(self)@.wf(),
            lease_end(now as int, lease_secs as int) <= i64::MAX,
        ensures
            ({
                let s = state_in(old(self)@.states, scope@);
                r == (s is Some && holds(s->0, owner@, now as int)) && final(self)@ == (if r {
                    StoreView {
                        states: with_state(old(self)@.states, lease_renewed(s->0, now, lease_secs)),
                        ..old(self)@
                    }
                } else {
                    old(self)@
                })
            }),
            final(self)@.wf(),
    {
        match self.agent_session_state(scope) {
            Some(mut s) => {
                if !is_held(&s, owner, now) {
                    return false;
                }
                s.lease_until = Some(end_of_lease(now, lease_secs));
                s.updated_at = now;
                self.put_state(s);
                true
            },
            None => false,
        }
    }

    /// Counts a turn of the owner of a lease that has not run out, and gives the lease back.
    pub fn finish_agent_session_turn(
        &mut self,
        scope: &str,
        owner: &str,
        session_id: Option<&str>,
        now: i64,
    ) -> (r: Option<AgentSessionState>)
        requires
            old(self)@.wf(),
            state_in(old(self)@.states, scope@) matches Some(s) ==> s.turn_count < i64::MAX,
        ensures
            ({
                let s = state_in(old(self)@.states, scope@);
                if s is Some && holds(s->0, owner@, now as int) {
                    let id = match session_id {
                        Some(i) => Some(i@),
                        None => None,
                    };
                    let done = turn_finished(s->0, id, now);
                    opt_state(r) == Some(done) && final(self)@ == (StoreView {
                        states: with_state(old(self)@.states, done),
                        sessions: match done.session_id {
                            Some(i) => with_link(
                                old(self)@.sessions,
                                LinkView { scope: scope@, session_id: i, updated_at: now },
                            ),
                            None => old(self)@.sessions,
                        },
                        ..old(self)@
                    })
                } else {
                    r is None && final(self)@ == old(self)@
                }
            }),
            final(self)@.wf(),
    {
        proof {
            state_slot_is_first(self@.states, scope@);
        }
        match self.agent_session_state(scope) {
            Some(mut s) => {
                if !is_held(&s, owner, now) {
                    return None;
                }
                if let Some(id) = session_id {
                    s.session_id = Some(id.to_owned());
                }
                s.turn_count = s.turn_count + 1;
                s.lease_owner = None;
                s.lease_until = None;
                s.updated_at = now;
                let answer = copy_state(&s);
                if let Some(id) = &s.session_id {
                    self.put_link(
                        AgentSession { scope: scope.to_owned(), session_id: id.clone(), updated_at: now },
                    );
                }
                self.put_state(s);
                Some(answer)
            },
            None => None,
        }
    }

    /// Gives the owner's lease back, also where it has run out.
    pub fn release_agent_session_lease(&mut self, scope: &str, owner: &str, now: i64) -> (r: bool)
        requires
            old(self)@.wf(),
        ensures
            ({
                let s = state_in(old(self)@.states, scope@);
                r == (s is Some && s->0.lease_owner == Some(owner@)) && final(self)@ == (if r {
                    StoreView {
                        states: with_state(old(self)@.states, lease_released(s->0, now)),
                        ..old(self)@
                    }
                } else {
                    old(self)@
                })
            }),
            final(self)@.wf(),
    {
        match self.agent_session_state(scope) {
            Some(mut s) => {
                if !is_text(&s.lease_owner, owner) {
                    return false;
                }
                s.lease_owner = None;
                s.lease_until = None;
                s.updated_at = now;
                self.put_state(s);
                true
            },
            None => false,
        }
    }

    /// Notes a compaction of the session by the owner of a lease that has not run out.
    pub fn mark_agent_session_compacted(&mut self, scope: &str, owner: &str, session_id: &str, now: i64) -> (r: bool)
        requires
            old(self)@.wf(),
        ensures
            ({
                let s = state_in(old(self)@.states, scope@);
                r == (s is Some && holds(s->0, owner@, now as int) && s->0.session_id == Some(session_id@))
                    && final(self)@ == (if r {
                    StoreView {
                        states: with_state(old(self)@.states, session_compacted(s->0, now)),
                        ..old(self)@
                    }
                } else {
                    old(self)@
                })
            }),
            final(self)@.wf(),
    {
        match self.agent_session_state(scope) {
            Some(mut s) => {
                if !is_held(&s, owner, now) || !is_text(&s.session_id, session_id) {
                    return false;
                }
                s.turn_count = 0;
                s.last_compacted_at = Some(now);
                s.lease_owner = None;
                s.lease_until = None;
                s.updated_at = now;
                self.put_state(s);
                true
            },
            None => false,
        }
    }

    /// Puts the next compaction off after one that failed; the owner keeps the lease.
    pub fn defer_agent_session_compaction(&mut self, scope: &str, owner: &str, now: i64) -> (r: bool)
        requires
            old(self)@.wf(),
        ensures
            ({
                let s = state_in(old(self)@.states, scope@);
                r == (s is Some && holds(s->0, owner@, now as int)) && final(self)@ == (if r {
                    StoreView {
                        states: with_state(old(self)@.states, compaction_deferred(s->0, now)),
                        ..old(self)@
                    }
                } else {
                    old(self)@
                })
            }),
            final(self)@.wf(),
    {
        match self.agent_session_state(scope) {
            Some(mut s) => {
                if !is_held(&s, owner, now) {
                    return false;
                }
                s.turn_count = 0;
                s.updated_at = now;
                self.put_state(s);
                true
            },
            None => false,
        }
    }

    /// Forgets a scope's session and its state.
    pub fn clear_agent_session(&mut self, scope: &str)
        requires
            old(self)@.wf(),
        ensures
            final(self)@ == (StoreView {
                states: without_state(old(self)@.states, scope@),
                sessions: without_link(old(self)@.sessions, scope@),
                ..old(self)@
            }),
            final(self)@.wf(),
    {
        proof {
            without_state_facts(self@.states, scope@);
            without_link_facts(self@.sessions, scope@);
        }
        let ghost states = self@.states;
        let ghost links = self@.sessions;
        let mut kept: Vec<AgentSessionState> = Vec::new();
        let mut i: usize = 0;
        assert(states_of(kept@) =~= without_state(states.take(0), scope@));
        while i < self.states.len()
            invariant
                i <= self.states.len(),
                states == self@.states,
                states_of(kept@) == without_state(states.take(i as int), scope@),
            decreases self.states.len() - i,
        {
            assert(states.take(i + 1).drop_last() =~= states.take(i as int));
            assert(states[i as int] == self.states@[i as int]@);
            if !same(self.states[i].scope.as_str(), scope) {
                let ghost before = states_of(kept@);
                kept.push(copy_state(&self.states[i]));
                assert(states_of(kept@) =~= before.push(states[i as int]));
            }
            i = i + 1;
        }
        assert(states.take(i as int) =~= states);
        let mut linked: Vec<AgentSession> = Vec::new();
        let mut j: usize = 0;
        assert(links_of(linked@) =~= without_link(links.take(0), scope@));
        while j < self.sessions.len()
            invariant
                j <= self.sessions.len(),
                links == self@.sessions,
                links_of(linked@) == without_link(links.take(j as int), scope@),
            decreases self.sessions.len() - j,
        {
            assert(links.take(j + 1).drop_last() =~= links.take(j as int));
            assert(links[j as int] == self.sessions@[j as int]@);
            if !same(self.sessions[j].scope.as_str(), scope) {
                let ghost before = links_of(linked@);
                linked.push(copy_link(&self.sessions[j]));
                assert(links_of(linked@) =~= before.push(links[j as int]));
            }
            j = j + 1;
        }
        assert(links.take(j as int) =~= links);
        self.states = kept;
        self.sessions = linked;
    }
}

// ---------------------------------------------------------------------------
// What the leases promise
// ---------------------------------------------------------------------------

/// While one owner holds the lease, no other may take it, renew it, finish a turn or compact.
pub proof fn leases_are_exclusive(s: StateView, owner: Seq<char>, other: Seq<char>, now: int)
    requires
        holds(s, owner, now),
        owner != other,
    ensures
        !may_take(s, other, now),
        !holds(s, other, now),
{
}

/// A lease that has run out is free for everybody, and lets its former owner finish nothing.
pub proof fn expired_leases_are_free(s: StateView, owner: Seq<char>, other: Seq<char>, now: int)
    requires
        s.lease_until is Some,
        s.lease_until->0 <= now,
    ensures
        may_take(s, other, now),
        !holds(s, owner, now),
{
}

/// Whoever takes a lease holds it until it runs out, and finishing a turn counts it, keeps the
/// session where no other is given, and leaves the lease free.
pub proof fn leases_carry_a_turn(s: StateView, owner: Seq<char>, now: i64, lease_secs: i64, then: i64)
    requires
        lease_end(now as int, lease_secs as int) <= i64::MAX,
        then < lease_end(now as int, lease_secs as int),
        s.turn_count < i64::MAX,
    ensures
        holds(lease_taken(s, owner, now, lease_secs), owner, then as int),
        turn_finished(lease_taken(s, owner, now, lease_secs), None, then).turn_count == s.turn_count + 1,
        turn_finished(lease_taken(s, owner, now, lease_secs), None, then).session_id == s.session_id,
        forall|other: Seq<char>|
            may_take(turn_finished(lease_taken(s, owner, now, lease_secs), None, then), other, then as int),
{
}

/// A failed compaction uses up the turns as a successful one does, without pretending that one
/// took place, and the owner goes on holding the lease.
pub proof fn deferring_keeps_the_lease(s: StateView, owner: Seq<char>, now: i64)
    requires
        holds(s, owner, now as int),
    ensures
        holds(compaction_deferred(s, now), owner, now as int),
        compaction_deferred(s, now).turn_count == session_compacted(s, now).turn_count,
        compaction_deferred(s, now).last_compacted_at == s.last_compacted_at,
        compaction_deferred(s, now).session_id == s.session_id,
{
}

/// A forgotten scope has neither session nor state.
pub proof fn cleared_scopes_are_empty(states: Seq<StateView>, links: Seq<LinkView>, scope: Seq<char>)
    ensures
        state_in(without_state(states, scope), scope) is None,
        link_in(without_link(links, scope), scope) is None,
{
    without_state_facts(states, scope);
    without_link_facts(links, scope);
    let s = without_state(states, scope);
    let l = without_link(links, scope);
    state_slot_at(s, scope, s.len() as int);
    link_slot_at(l, scope, l.len() as int);
}

} // verus!
