//! A turn without roles: recall, ask, remember.
use crate::gateway::backend::{plain_request, AgentRequest, RequestForm};
use crate::gateway::config::GatewayConfig;
use crate::gateway::error::GatewayError;
use crate::gateway::prompt::{compose_prompt, composed};
use crate::memory::answering::hits_of;
use crate::memory::model::{MemoryItem, MemoryKind, RecallHit, RememberInput};
use crate::memory::rows::{conversation_noted, has_blank_item, items_of, with_items, ItemView};
use crate::memory::scope::{parsed_scope, scope_text};
use crate::memory::store::Store;
use crate::text::{blank, trim_end, trim_start, white, trimmed};
use crate::memory::error::MemoryError;
use vstd::prelude::*;

verus! {

/// The request of a turn: the input behind what is remembered of it.
pub fn turn_request(cfg: &GatewayConfig, hits: &Vec<RecallHit>, input: &str) -> (r: AgentRequest)
    ensures
        r@ == (RequestForm { thinking: cfg.thinking, ..plain_request(composed(hits_of(hits@), input@)) }),
{
    let mut r = AgentRequest::plain(compose_prompt(hits, input));
    r.thinking = cfg.thinking;
    r
}

/// What is remembered of a turn: what was asked and what was answered.
pub open spec fn exchange(input: Seq<char>, answer: Seq<char>) -> Seq<ItemView> {
    seq![
        ItemView { kind: MemoryKind::Event, text: "User: "@ + input, importance: None, dedupe_key: None },
        ItemView { kind: MemoryKind::Event, text: "Assistant: "@ + answer, importance: None, dedupe_key: None },
    ]
}

fn said(by: &str, text: &str) -> (r: MemoryItem)
    ensures
        r@ == (ItemView { kind: MemoryKind::Event, text: by@ + text@, importance: None, dedupe_key: None }),
{
    let mut t = String::from_str(by);
    t.append(text);
    MemoryItem { kind: MemoryKind::Event, text: t, importance: None, dedupe_key: None }
}

/// What is remembered of a turn.
pub fn turn_memory(cfg: &GatewayConfig, input: &str, answer: &str) -> (r: RememberInput)
    ensures
        r.scope@ == cfg.scope@,
        r.session_id is None,
        items_of(r.items@) == exchange(input@, answer@),
        r.items@.len() == 2,
{
    let mut items: Vec<MemoryItem> = Vec::new();
    items.push(said("User: ", input));
    items.push(said("Assistant: ", answer));
    assert(items_of(items@) =~= exchange(input@, answer@));
    RememberInput { scope: cfg.scope.clone(), session_id: None, items }
}

/// Ends a turn: remembers it, and gives the answer.
pub fn finish_turn(store: &mut Store, cfg: &GatewayConfig, input: &str, answer: String, now: i64) -> (r: Result<
    String,
    GatewayError,
>)
    requires
        old(store)@.wf(),
        old(store)@.next_id + 2 <= i64::MAX,
    ensures
        final(store)@.wf(),
        match parsed_scope(cfg.scope@) {
            None => final(store)@ == old(store)@ && (r matches Err(e) && e matches GatewayError::Memory(m) && m matches MemoryError::InvalidScope(t)
                && t@ == trimmed(cfg.scope@)),
            Some(scope) => (r matches Ok(t) && t@ == answer@) && final(store)@ == with_items(
                conversation_noted(old(store)@, None, scope_text(scope), now),
                None,
                scope_text(scope),
                exchange(input@, answer@),
                now,
            ),
        },
{
    let kept = turn_memory(cfg, input, answer.as_str());
    proof {
        exchanges_are_not_blank(input@, answer@);
    }
    match store.remember(&kept, now) {
        Ok(_) => Ok(answer),
        Err(e) => Err(GatewayError::Memory(e)),
    }
}

/// What is remembered of a turn is never blank, whatever was said.
pub proof fn exchanges_are_not_blank(input: Seq<char>, answer: Seq<char>)
    ensures
        !has_blank_item(exchange(input, answer)),
{
    reveal_strlit("User: ");
    reveal_strlit("Assistant: ");
    let e = exchange(input, answer);
    starts_solid(e[0].text);
    starts_solid(e[1].text);
    assert(!blank(e[0].text) && !blank(e[1].text));
}

/// A text that starts with a character that shows is not blank.
proof fn starts_solid(s: Seq<char>)
    requires
        s.len() > 0,
        !white(s[0]),
    ensures
        !blank(s),
{
    assert(trim_start(s) == s);
    ends_no_earlier(s);
}

proof fn ends_no_earlier(s: Seq<char>)
    requires
        s.len() > 0,
        !white(s[0]),
    ensures
        trim_end(s).len() > 0,
    decreases s.len(),
{
    if white(s.last()) {
        assert(s.len() > 1);
        assert(s.drop_last()[0] == s[0]);
        ends_no_earlier(s.drop_last());
    }
}

} // verus!
