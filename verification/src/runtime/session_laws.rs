//! How a scope's agent session goes on from turn to turn: who may continue it, what a turn leaves behind,
//! and when it is compacted.
use crate::gateway::error::GatewayError;
use crate::memory::sessions::{
    compaction_deferred, holds, lease_released, lease_renewed, lease_start, lease_taken, may_take,
    session_compacted, session_set, state_in, state_slot, turn_finished, with_state, without_link,
    without_state, LinkView, StateView,
};
use crate::memory::store::StoreView;
use crate::runtime::session::{
    after_compaction, compaction_due, compaction_unknown, lease_given_back, number_or,
    with_session_state, SessionPolicy,
};
use crate::text::parsed_signed;
use vstd::prelude::*;

verus! {

/// Whoever takes the lease has it for as many seconds as asked for, and at least one; until then nobody
/// else may take it, from then on everybody may. The session goes on as it was.
pub proof fn leases_last_as_long_as_asked(
    s: StateView,
    owner: Seq<char>,
    other: Seq<char>,
    now: i64,
    lease_secs: i64,
    then: i64,
)
    requires
        owner != other,
        now + lease_secs <= i64::MAX,
        now < i64::MAX,
    ensures
        ({
            let t = lease_taken(s, owner, now, lease_secs);
            let end = if lease_secs < 1 {
                now + 1
            } else {
                now + lease_secs
            };
            &&& holds(t, owner, then as int) <==> then < end
            &&& may_take(t, other, then as int) <==> then >= end
            &&& may_take(t, owner, then as int)
            &&& !holds(t, other, then as int)
            &&& t.scope == s.scope && t.session_id == s.session_id && t.turn_count == s.turn_count && t.last_compacted_at
                == s.last_compacted_at
        }),
{
}

/// Renewing a lease gives its owner the time asked for, from now on, and changes nothing else.
pub proof fn renewing_gives_more_time(s: StateView, owner: Seq<char>, now: i64, lease_secs: i64, then: i64)
    requires
        holds(s, owner, now as int),
        now + lease_secs <= i64::MAX,
    ensures
        ({
            let t = lease_renewed(s, now, lease_secs);
            &&& holds(t, owner, then as int) <==> then < (if lease_secs < 1 {
                now + 1
            } else {
                now + lease_secs
            })
            &&& t.scope == s.scope && t.session_id == s.session_id && t.turn_count == s.turn_count && t.last_compacted_at
                == s.last_compacted_at && t.lease_owner == s.lease_owner
        }),
{
}

/// A scope that nobody has a lease on is free for everybody, and nobody holds it.
pub proof fn free_scopes_are_free(s: StateView, owner: Seq<char>, now: i64)
    requires
        s.lease_until is None,
    ensures
        may_take(s, owner, now as int),
        !holds(s, owner, now as int),
{
}

/// Giving a lease back frees the scope and changes nothing else of it.
pub proof fn released_scopes_are_free(s: StateView, other: Seq<char>, now: i64, then: i64)
    ensures
        ({
            let t = lease_released(s, now);
            &&& may_take(t, other, then as int)
            &&& t.scope == s.scope && t.session_id == s.session_id && t.turn_count == s.turn_count && t.last_compacted_at
                == s.last_compacted_at
        }),
{
}

/// A turn goes on in the session that it says, or else in the one before; it counts, frees the scope and
/// leaves what is known of the last compaction.
pub proof fn turns_leave_their_session(s: StateView, id: Seq<char>, other: Seq<char>, now: i64, then: i64)
    requires
        s.turn_count < i64::MAX,
    ensures
        turn_finished(s, Some(id), now).session_id == Some(id),
        turn_finished(s, None, now).session_id == s.session_id,
        forall|o: Option<Seq<char>>|
            (#[trigger] turn_finished(s, o, now)).turn_count == s.turn_count + 1 && turn_finished(s, o, now).scope == s.scope
                && turn_finished(s, o, now).last_compacted_at == s.last_compacted_at && may_take(
                turn_finished(s, o, now),
                other,
                then as int,
            ),
{
}

/// Setting the session that a scope has keeps its turns; setting another one starts anew. Either way the
/// scope is free.
pub proof fn set_sessions_start_anew(s: StateView, id: Seq<char>, other: Seq<char>, now: i64, then: i64)
    ensures
        ({
            let t = session_set(Some(s), s.scope, id, now);
            &&& t.scope == s.scope && t.session_id == Some(id) && t.updated_at == now
            &&& s.session_id == Some(id) ==> t.turn_count == s.turn_count && t.last_compacted_at == s.last_compacted_at
            &&& s.session_id != Some(id) ==> t.turn_count == 0 && t.last_compacted_at is None
            &&& may_take(t, other, then as int)
        }),
        ({
            let t = session_set(None, s.scope, id, now);
            &&& t.scope == s.scope && t.session_id == Some(id) && t.turn_count == 0 && t.last_compacted_at is None
            &&& may_take(t, other, then as int)
        }),
{
}

/// A scope goes on from its state; one without a state goes on in its session, and one without either
/// starts without a session.
pub proof fn scopes_go_on_where_they_were(s: StateView, link: LinkView, scope: Seq<char>, now: i64)
    ensures
        forall|l: Option<LinkView>| #[trigger] lease_start(Some(s), l, scope, now) == s,
        ({
            let t = lease_start(None, Some(link), scope, now);
            t.scope == scope && t.session_id == Some(link.session_id) && t.turn_count == 0 && t.lease_until is None
                && t.lease_owner is None && t.last_compacted_at is None && t.updated_at == link.updated_at
        }),
        ({
            let t = lease_start(None, None, scope, now);
            t.scope == scope && t.session_id is None && t.turn_count == 0 && t.lease_until is None && t.lease_owner is None
                && t.last_compacted_at is None && t.updated_at == now
        }),
{
}

/// The state after so many turns.
pub open spec fn after_turns(s: StateView, n: nat, now: i64) -> StateView
    decreases n,
{
    if n == 0 {
        s
    } else {
        turn_finished(after_turns(s, (n - 1) as nat, now), None, now)
    }
}

/// A session is compacted after as many turns as the policy says, counted from the last compaction, and
/// never where the policy says none or there is no session.
pub proof fn compaction_comes_after_so_many_turns(s: StateView, policy: SessionPolicy, n: nat, now: i64)
    requires
        n <= i64::MAX,
    ensures
        ({
            let t = after_turns(session_compacted(s, now), n, now);
            &&& compaction_due(t, policy) <==> s.session_id is Some && policy.compact_every_turns > 0 && n
                >= policy.compact_every_turns
            &&& t.turn_count == n
            &&& t.last_compacted_at == Some(now)
            &&& t.session_id == s.session_id
        }),
        ({
            let t = after_turns(compaction_deferred(s, now), n, now);
            compaction_due(t, policy) <==> s.session_id is Some && policy.compact_every_turns > 0 && n
                >= policy.compact_every_turns
        }),
    decreases n,
{
    if n > 0 {
        compaction_comes_after_so_many_turns(s, policy, (n - 1) as nat, now);
        counted_turns(compaction_deferred(s, now), (n - 1) as nat, now);
    }
}

proof fn counted_turns(s: StateView, n: nat, now: i64)
    requires
        s.turn_count == 0,
        n < i64::MAX,
    ensures
        after_turns(s, n, now).turn_count == n,
        after_turns(s, n, now).session_id == s.session_id,
    decreases n,
{
    if n > 0 {
        counted_turns(s, (n - 1) as nat, now);
    }
}

/// After a compaction its owner still has the lease, from now on, and the session has no turns.
pub proof fn compacting_keeps_the_lease(s: StoreView, v: StateView, owner: Seq<char>, policy: SessionPolicy, now: i64)
    requires
        now + policy.lease_secs <= i64::MAX,
        now < i64::MAX,
    ensures
        ({
            let t = state_in(after_compaction(s, v, owner, policy, now).states, v.scope);
            &&& t is Some && holds(t->0, owner, now as int)
            &&& t->0.turn_count == 0 && t->0.last_compacted_at == Some(now) && t->0.session_id == v.session_id
        }),
{
    let done = with_session_state(s, session_compacted(v, now));
    found_again(done.states, lease_taken(session_compacted(v, now), owner, now, policy.lease_secs));
}

proof fn found_again(s: Seq<StateView>, v: StateView)
    ensures
        state_in(with_state(s, v), v.scope) == Some(v),
{
    slot_of(s, v.scope);
    let t = with_state(s, v);
    let k = state_slot(s, v.scope);
    slot_at(t, v.scope, if k < s.len() { k } else { s.len() as int });
}

proof fn slot_of(s: Seq<StateView>, scope: Seq<char>)
    ensures
        0 <= state_slot(s, scope) <= s.len(),
        forall|k: int| 0 <= k < state_slot(s, scope) ==> (#[trigger] s[k]).scope != scope,
        state_slot(s, scope) < s.len() ==> s[state_slot(s, scope)].scope == scope,
    decreases s.len(),
{
    if s.len() > 0 && s[0].scope != scope {
        let d = s.drop_first();
        slot_of(d, scope);
        assert forall|k: int| 0 <= k < state_slot(s, scope) implies (#[trigger] s[k]).scope != scope by {
            if k > 0 {
                assert(d[k - 1] == s[k]);
            }
        }
    }
}

proof fn slot_at(s: Seq<StateView>, scope: Seq<char>, i: int)
    requires
        0 <= i < s.len(),
        s[i].scope == scope,
        forall|k: int| 0 <= k < i ==> (#[trigger] s[k]).scope != scope,
    ensures
        state_slot(s, scope) == i,
    decreases i,
{
    if i > 0 {
        assert(s[0].scope != scope);
        let d = s.drop_first();
        assert forall|k: int| 0 <= k < i - 1 implies (#[trigger] d[k]).scope != scope by {
            assert(d[k] == s[k + 1]);
        }
        slot_at(d, scope, i - 1);
    }
}

/// Giving back a lease frees the scope where the owner has it, and changes nothing where it does not.
pub proof fn only_the_owner_gives_back(s: StoreView, scope: Seq<char>, owner: Seq<char>, other: Seq<char>, now: i64, then: i64)
    ensures
        ({
            let before = state_in(s.states, scope);
            let t = lease_given_back(s, scope, owner, now);
            &&& before is None || before->0.lease_owner != Some(owner) ==> t == s
            &&& before is Some && before->0.lease_owner == Some(owner) ==> state_in(t.states, scope) is Some && may_take(
                state_in(t.states, scope)->0,
                other,
                then as int,
            ) && state_in(t.states, scope)->0.session_id == before->0.session_id
        }),
{
    let before = state_in(s.states, scope);
    slot_of(s.states, scope);
    if before is Some && before->0.lease_owner == Some(owner) {
        found_again(s.states, lease_released(before->0, now));
    }
}

/// Forgetting a scope removes its own rows and keeps all others, in order.
pub proof fn other_scopes_stay(states: Seq<StateView>, links: Seq<LinkView>, scope: Seq<char>)
    ensures
        without_state(states, scope) == states.filter(|s: StateView| s.scope != scope),
        without_link(links, scope) == links.filter(|l: LinkView| l.scope != scope),
{
    other_states_stay(states, scope);
    other_links_stay(links, scope);
}

proof fn other_states_stay(states: Seq<StateView>, scope: Seq<char>)
    ensures
        without_state(states, scope) == states.filter(|s: StateView| s.scope != scope),
    decreases states.len(),
{
    reveal(Seq::filter);
    if states.len() > 0 {
        other_states_stay(states.drop_last(), scope);
    }
}

proof fn other_links_stay(links: Seq<LinkView>, scope: Seq<char>)
    ensures
        without_link(links, scope) == links.filter(|l: LinkView| l.scope != scope),
    decreases links.len(),
{
    reveal(Seq::filter);
    if links.len() > 0 {
        other_links_stay(links.drop_last(), scope);
    }
}

/// A compaction counts as unknown to the agent exactly where the agent answers that there is no such
/// thing.
pub proof fn unknown_means_not_found(e: GatewayError)
    ensures
        compaction_unknown(e) <==> (e is AgentFailed && (e->AgentFailed_code == Some(404i32) || e->AgentFailed_code
            == Some(405i32))),
{
}

/// A setting that is a number not below the least one counts; everything else leaves the usual number.
pub proof fn settings_count_where_they_make_sense(v: Seq<char>, least: int, usual: int)
    ensures
        number_or(None, least, usual) == usual,
        parsed_signed(v) is None ==> number_or(Some(v), least, usual) == usual,
        parsed_signed(v) is Some && parsed_signed(v)->0 >= least ==> number_or(Some(v), least, usual) == parsed_signed(v)->0,
        parsed_signed(v) is Some && parsed_signed(v)->0 < least ==> number_or(Some(v), least, usual) == usual,
        usual >= least ==> number_or(Some(v), least, usual) >= least,
{
}

} // verus!
