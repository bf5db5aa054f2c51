//! What the chat views get to see of what was said.
use crate::chat_history::attachments::{
    before_dots, last_part, name_char, name_in_path, past_dots, path_of, scope_char, scope_in_path,
};
use crate::chat_history::rows::{ChatLiveEventView, ChatScopeView, MessageView, ThreadView, TurnEventView};
use crate::chat_history::scopes::{
    label_of_scope, last_touch, said_in, scope_entries, scope_entry, scope_keys, scopes_are_named_once, scopes_listed,
    scopes_named,
};
use crate::chat_history::store::{
    thread_called, thread_id_of, thread_in, touched, with_thread, HistoryView,
};
use crate::chat_history::windows::{
    all_shown, asked, batch_size, date_keys, dated_messages, earlier_messages, event_keys,
    event_of, events_listed, newest, oldest, step_of, thread_messages, told_after,
};
use crate::memory::report_laws::texts_have_an_order;
use crate::order::{key_before, sorted_order, sorted_rows, sorting_is_a_permutation, text_before, texts_before, Key};
use crate::table::{kept, kept_rows_meet, meeting_rows_are_kept, slot, slot_at, slot_is_first};
use crate::text::{
    ascii_alpha, ascii_digit, control, signed_decimal, stripped, trim_end, trim_start, trimmed, white,
};
use vstd::prelude::*;

verus! {

// ---------------------------------------------------------------------------
// Windows
// ---------------------------------------------------------------------------

/// The rows that are kept are those that meet the condition, in order.
pub proof fn kept_rows_are_those_that_meet<T>(s: Seq<T>, keep: spec_fn(T) -> bool)
    ensures
        kept(s, keep) == s.filter(keep),
    decreases s.len(),
{
    reveal(Seq::filter);
    if s.len() > 0 {
        kept_rows_are_those_that_meet(s.drop_last(), keep);
    }
}

/// A thread's messages are all those said in it, and the earlier ones those with a smaller number.
pub proof fn threads_hold_what_was_said_in_them(v: HistoryView, thread_id: Seq<char>, before: i64, m: MessageView)
    ensures
        thread_messages(v, thread_id).contains(m) <==> v.messages.contains(m) && m.thread_id == thread_id,
        earlier_messages(v, thread_id, before).contains(m) <==> v.messages.contains(m) && m.thread_id == thread_id && m.id
            < before,
{
    let a = asked(thread_id, None, None);
    let b = asked(thread_id, Some(before), None);
    kept_rows_meet(v.messages, a);
    kept_rows_meet(v.messages, b);
    if v.messages.contains(m) && m.thread_id == thread_id {
        meeting_rows_are_kept(v.messages, a, m);
        if m.id < before {
            meeting_rows_are_kept(v.messages, b, m);
        }
    }
    if thread_messages(v, thread_id).contains(m) {
        let k = thread_messages(v, thread_id).index_of(m);
        assert(a(thread_messages(v, thread_id)[k]));
    }
    if earlier_messages(v, thread_id, before).contains(m) {
        let k = earlier_messages(v, thread_id, before).index_of(m);
        assert(b(earlier_messages(v, thread_id, before)[k]));
    }
}

spec fn in_turn<T>(s: Seq<T>, keys: Seq<Key>, x: T, y: T) -> bool {
    exists|i: int, j: int|
        0 <= i < s.len() && 0 <= j < s.len() && x == #[trigger] s[i] && y == #[trigger] s[j] && !key_before(keys[j], keys[i])
}

proof fn sorting_rows<T>(s: Seq<T>, keys: Seq<Key>, x: T)
    requires
        keys.len() == s.len(),
    ensures
        sorted_rows(s, keys).len() == s.len(),
        sorted_rows(s, keys).contains(x) <==> s.contains(x),
        forall|a: int, b: int|
            0 <= a < b < s.len() ==> in_turn(s, keys, #[trigger] sorted_rows(s, keys)[a], #[trigger] sorted_rows(s, keys)[b]),
{
    let n = keys.len() as int;
    let at = sorted_order(keys, n);
    let t = sorted_rows(s, keys);
    sorting_is_a_permutation(keys, n);
    if s.contains(x) {
        let i = s.index_of(x);
        assert(at.contains(i));
        assert(t[at.index_of(i)] == x);
    }
    if t.contains(x) {
        let k = t.index_of(x);
        assert(at.contains(at[k]));
        assert(s[at[k]] == x);
    }
    assert forall|a: int, b: int| 0 <= a < b < s.len() implies in_turn(s, keys, #[trigger] t[a], #[trigger] t[b]) by {
        assert(at.contains(at[a]));
        assert(at.contains(at[b]));
        assert(at[a] != at[b]);
        assert(t[a] == s[at[a]]);
        assert(t[b] == s[at[b]]);
    }
}

/// The messages of a span of time are all those of the thread said from its start on and before its end,
/// the oldest first.
pub proof fn spans_hold_what_was_said_in_them(v: HistoryView, thread_id: Seq<char>, start: i64, end: i64, m: MessageView)
    ensures
        dated_messages(v, thread_id, start, end).contains(m) <==> v.messages.contains(m) && m.thread_id == thread_id && start
            <= m.created_at < end,
        forall|a: int, b: int|
            0 <= a < b < dated_messages(v, thread_id, start, end).len() ==> (#[trigger] dated_messages(
                v,
                thread_id,
                start,
                end,
            )[a]).created_at <= (#[trigger] dated_messages(v, thread_id, start, end)[b]).created_at,
{
    let a = asked(thread_id, None, Some((start, end)));
    let own = kept(v.messages, a);
    let t = dated_messages(v, thread_id, start, end);
    kept_rows_meet(v.messages, a);
    sorting_rows(own, date_keys(own), m);
    if v.messages.contains(m) && m.thread_id == thread_id && start <= m.created_at < end {
        meeting_rows_are_kept(v.messages, a, m);
    }
    if own.contains(m) {
        let k = own.index_of(m);
        assert(a(own[k]));
    }
    assert forall|x: int, y: int| 0 <= x < y < t.len() implies (#[trigger] t[x]).created_at <= (#[trigger] t[y]).created_at by {
        assert(in_turn(own, date_keys(own), t[x], t[y]));
        let (i, j) = choose|i: int, j: int|
            0 <= i < own.len() && 0 <= j < own.len() && t[x] == #[trigger] own[i] && t[y] == #[trigger] own[j]
                && !key_before(date_keys(own)[j], date_keys(own)[i]);
        assert(date_keys(own)[i] == (own[i].created_at as i128, own[i].id as i128));
        assert(date_keys(own)[j] == (own[j].created_at as i128, own[j].id as i128));
    }
}

/// A page holds the newest messages, in their order: as many as asked for, or all.
pub proof fn pages_hold_the_newest<T>(s: Seq<T>, limit: int)
    ensures
        limit < 0 || limit >= s.len() ==> newest(s, limit) == s && oldest(s, limit) == s,
        0 <= limit <= s.len() ==> newest(s, limit).len() == limit && forall|i: int|
            0 <= i < limit ==> #[trigger] newest(s, limit)[i] == s[s.len() - limit + i],
        0 <= limit <= s.len() ==> oldest(s, limit).len() == limit && forall|i: int|
            0 <= i < limit ==> #[trigger] oldest(s, limit)[i] == s[i],
{
    if limit < 0 || limit >= s.len() {
        assert(newest(s, limit) =~= s);
        assert(oldest(s, limit) =~= s);
    }
}

/// A message is shown as it was said, with the number of its steps and events.
pub proof fn messages_are_shown_as_said(v: HistoryView, ms: Seq<MessageView>, i: int)
    requires
        0 <= i < ms.len(),
        v.steps.len() <= i64::MAX,
        v.events.len() <= i64::MAX,
    ensures
        ({
            let (m, s) = (ms[i], all_shown(v, ms)[i]);
            &&& s.id == m.id && s.thread_id == m.thread_id && s.role == m.role && s.content == m.content && s.content_html
                == m.content_html && s.status == m.status && s.created_at == m.created_at
            &&& s.step_count == v.steps.filter(step_of(m.id)).len()
            &&& s.event_count == v.events.filter(event_of(m.id)).len()
        }),
{
    let m = ms[i];
    kept_rows_are_those_that_meet(v.steps, step_of(m.id));
    kept_rows_are_those_that_meet(v.events, event_of(m.id));
    kept_rows_meet(v.steps, step_of(m.id));
    kept_rows_meet(v.events, event_of(m.id));
}

/// A message's events are all listed, by their numbers, and no others.
pub proof fn events_are_listed_in_order(events: Seq<TurnEventView>, message_id: i64, e: TurnEventView)
    ensures
        events_listed(events, message_id).contains(e) <==> events.contains(e) && e.message_id == message_id,
        forall|a: int, b: int|
            0 <= a < b < events_listed(events, message_id).len() ==> (#[trigger] events_listed(events, message_id)[a]).seq <= (
            #[trigger] events_listed(events, message_id)[b]).seq,
{
    let keep = event_of(message_id);
    let own = kept(events, keep);
    let t = events_listed(events, message_id);
    kept_rows_meet(events, keep);
    sorting_rows(own, event_keys(own), e);
    if events.contains(e) && e.message_id == message_id {
        meeting_rows_are_kept(events, keep, e);
    }
    if own.contains(e) {
        let k = own.index_of(e);
        assert(keep(own[k]));
    }
    assert forall|x: int, y: int| 0 <= x < y < t.len() implies (#[trigger] t[x]).seq <= (#[trigger] t[y]).seq by {
        assert(in_turn(own, event_keys(own), t[x], t[y]));
        let (i, j) = choose|i: int, j: int|
            0 <= i < own.len() && 0 <= j < own.len() && t[x] == #[trigger] own[i] && t[y] == #[trigger] own[j]
                && !key_before(event_keys(own)[j], event_keys(own)[i]);
        assert(event_keys(own)[i] == (own[i].seq as i128, own[i].id as i128));
        assert(event_keys(own)[j] == (own[j].seq as i128, own[j].id as i128));
    }
}

/// A scope is told all its own news with a larger number, and no others.
pub proof fn scopes_are_told_their_news(events: Seq<ChatLiveEventView>, scope: Seq<char>, after: i64, e: ChatLiveEventView)
    ensures
        kept(events, told_after(scope, after)).contains(e) <==> events.contains(e) && e.scope == scope && e.id > after,
{
    let keep = told_after(scope, after);
    kept_rows_meet(events, keep);
    if events.contains(e) && e.scope == scope && e.id > after {
        meeting_rows_are_kept(events, keep, e);
    }
    if kept(events, keep).contains(e) {
        let k = kept(events, keep).index_of(e);
        assert(keep(kept(events, keep)[k]));
    }
}

/// News come one to a hundred at a time.
pub proof fn news_come_in_batches(limit: int)
    ensures
        1 <= batch_size(limit) <= 100,
        1 <= limit <= 100 ==> batch_size(limit) == limit,
        limit < 1 ==> batch_size(limit) == 1,
        limit > 100 ==> batch_size(limit) == 100,
{
}

// ---------------------------------------------------------------------------
// Scopes
// ---------------------------------------------------------------------------

/// A scope is called by what it is of: a chat, a project or everything.
pub proof fn scopes_have_labels(name: Seq<char>)
    ensures
        label_of_scope("user:tg-"@ + name) == "Telegram "@ + name,
        label_of_scope("project:"@ + name) == "Project "@ + name,
        label_of_scope("global"@) == "Global"@,
{
    reveal_strlit("user:tg-");
    reveal_strlit("project:");
    reveal_strlit("global");
    let a = "user:tg-"@ + name;
    assert(a.subrange(0, 8) =~= "user:tg-"@);
    assert(a.skip(8) =~= name);
    let b = "project:"@ + name;
    assert(b.subrange(0, 8) =~= "project:"@);
    assert(b.skip(8) =~= name);
    assert(b.subrange(0, 8)[0] == 'p');
    assert("user:tg-"@[0] == 'u');
    assert("global"@.len() == 6);
    assert("user:tg-"@.len() == 8);
    assert("project:"@.len() == 8);
}

/// A scope that is of none of these is called by itself.
pub proof fn other_scopes_are_called_by_themselves(scope: Seq<char>)
    requires
        stripped(scope, "user:tg-"@) is None,
        stripped(scope, "project:"@) is None,
        scope != "global"@,
    ensures
        label_of_scope(scope) == scope,
{
}

/// A scope was last touched when the last touched of its threads was.
pub proof fn the_last_touch_counts(threads: Seq<ThreadView>, scope: Seq<char>)
    ensures
        forall|i: int|
            0 <= i < threads.len() && (#[trigger] threads[i]).scope == scope ==> last_touch(threads, scope) is Some && last_touch(
                threads,
                scope,
            )->0 >= threads[i].updated_at,
        last_touch(threads, scope) is Some ==> exists|i: int|
            0 <= i < threads.len() && (#[trigger] threads[i]).scope == scope && threads[i].updated_at == last_touch(
                threads,
                scope,
            )->0,
    decreases threads.len(),
{
    if threads.len() > 0 {
        let d = threads.drop_last();
        the_last_touch_counts(d, scope);
        assert(threads[threads.len() - 1] == threads.last());
        if last_touch(d, scope) is Some {
            let i = choose|i: int|
                0 <= i < d.len() && (#[trigger] d[i]).scope == scope && d[i].updated_at == last_touch(d, scope)->0;
            assert(threads[i] == d[i]);
        }
        assert forall|i: int| 0 <= i < threads.len() && (#[trigger] threads[i]).scope == scope implies last_touch(
            threads,
            scope,
        ) is Some && last_touch(threads, scope)->0 >= threads[i].updated_at by {
            if i < d.len() {
                assert(d[i] == threads[i]);
            }
        }
    }
}

proof fn only_scopes_are_named(threads: Seq<ThreadView>, s: Seq<char>)
    requires
        scopes_named(threads).contains(s),
    ensures
        exists|i: int| 0 <= i < threads.len() && (#[trigger] threads[i]).scope == s,
    decreases threads.len(),
{
    let d = threads.drop_last();
    let (t, w) = (scopes_named(threads), scopes_named(d));
    assert(threads[threads.len() - 1] == threads.last());
    if w.contains(s) {
        only_scopes_are_named(d, s);
        let i = choose|i: int| 0 <= i < d.len() && (#[trigger] d[i]).scope == s;
        assert(threads[i] == d[i]);
    } else {
        let k = t.index_of(s);
        if k < w.len() {
            assert(w[k] == s);
        }
    }
}

/// Every scope that has a thread is listed, with its label, the number of its messages and its last
/// touch; so is the usual one, even where nothing was said in it yet.
pub proof fn every_scope_is_listed(v: HistoryView, usual: Seq<char>, i: int)
    requires
        0 <= i < v.threads.len(),
    ensures
        scopes_listed(v, usual).contains(scope_entry(v, v.threads[i].scope)),
        scopes_named(v.threads).contains(usual) || scopes_listed(v, usual).last() == (ChatScopeView {
            scope: usual,
            label: label_of_scope(usual),
            message_count: 0,
            updated_at: 0,
        }),
        scopes_listed(v, usual).len() == scopes_named(v.threads).len() + (if scopes_named(v.threads).contains(usual) {
            0nat
        } else {
            1
        }),
{
    let names = scopes_named(v.threads);
    let entries = scope_entries(v, names);
    let s = v.threads[i].scope;
    scopes_are_named_once(v.threads);
    let k = names.index_of(s);
    assert(entries[k] == scope_entry(v, s));
    sorting_rows(entries, scope_keys(v, names), scope_entry(v, s));
    let sorted = sorted_rows(entries, scope_keys(v, names));
    let p = sorted.index_of(scope_entry(v, s));
    assert(scopes_listed(v, usual)[p] == scope_entry(v, s));
}

/// What is listed of a scope is its own: its name, its label, how much was said in its threads, and when
/// it was last touched.
pub proof fn entries_tell_of_their_scope(v: HistoryView, scope: Seq<char>)
    requires
        v.messages.len() <= i64::MAX,
    ensures
        ({
            let e = scope_entry(v, scope);
            &&& e.scope == scope && e.label == label_of_scope(scope)
            &&& e.message_count == v.messages.filter(said_in(v.threads, scope)).len()
            &&& last_touch(v.threads, scope) is Some ==> e.updated_at == last_touch(v.threads, scope)->0
        }),
        forall|m: MessageView| #[trigger]
            said_in(v.threads, scope)(m) <==> thread_in(v.threads, m.thread_id) is Some && thread_in(
                v.threads,
                m.thread_id,
            )->0.scope == scope,
{
    kept_rows_are_those_that_meet(v.messages, said_in(v.threads, scope));
    kept_rows_meet(v.messages, said_in(v.threads, scope));
}

/// The scopes are listed with the last touched first, the usual one behind them where nothing was said in
/// it yet.
pub proof fn the_last_touched_scope_comes_first(v: HistoryView, usual: Seq<char>, a: int, b: int)
    requires
        0 <= a < b < scopes_named(v.threads).len(),
    ensures
        scopes_listed(v, usual)[a].updated_at >= scopes_listed(v, usual)[b].updated_at,
{
    let names = scopes_named(v.threads);
    let entries = scope_entries(v, names);
    let keys = scope_keys(v, names);
    let sorted = sorted_rows(entries, keys);
    sorting_rows(entries, keys, entries[0]);
    assert(in_turn(entries, keys, sorted[a], sorted[b]));
    let (i, j) = choose|i: int, j: int|
        0 <= i < entries.len() && 0 <= j < entries.len() && sorted[a] == #[trigger] entries[i] && sorted[b]
            == #[trigger] entries[j] && !key_before(keys[j], keys[i]);
    assert(keys[i].0 == -(entries[i].updated_at as i128));
    assert(keys[j].0 == -(entries[j].updated_at as i128));
}

proof fn earlier_texts_come_first(list: Seq<Seq<char>>, a: Seq<char>, b: Seq<char>)
    requires
        text_before(a, b),
    ensures
        0 <= texts_before(list, a) <= texts_before(list, b) <= list.len(),
        list.contains(a) ==> texts_before(list, a) < texts_before(list, b),
    decreases list.len(),
{
    if list.len() > 0 {
        let d = list.drop_last();
        earlier_texts_come_first(d, a, b);
        texts_have_an_order(list.last(), a, b);
        texts_have_an_order(a, a, a);
        if list.contains(a) {
            let k = list.index_of(a);
            if k < d.len() {
                assert(d[k] == a);
            }
        }
    }
}

/// Scopes that were touched at the same moment are listed by their names.
pub proof fn scopes_of_one_moment_are_listed_by_name(v: HistoryView, usual: Seq<char>, a: int, b: int)
    requires
        0 <= a < b < scopes_named(v.threads).len(),
        v.threads.len() <= usize::MAX,
    ensures
        scopes_listed(v, usual)[a].updated_at == scopes_listed(v, usual)[b].updated_at ==> !text_before(
            scopes_listed(v, usual)[b].scope,
            scopes_listed(v, usual)[a].scope,
        ),
{
    let names = scopes_named(v.threads);
    let entries = scope_entries(v, names);
    let keys = scope_keys(v, names);
    let sorted = sorted_rows(entries, keys);
    sorting_rows(entries, keys, entries[0]);
    assert(in_turn(entries, keys, sorted[a], sorted[b]));
    let (i, j) = choose|i: int, j: int|
        0 <= i < entries.len() && 0 <= j < entries.len() && sorted[a] == #[trigger] entries[i] && sorted[b]
            == #[trigger] entries[j] && !key_before(keys[j], keys[i]);
    assert(keys[i].0 == -(entries[i].updated_at as i128));
    assert(keys[j].0 == -(entries[j].updated_at as i128));
    few_scopes_are_named(v.threads);
    if text_before(names[j], names[i]) {
        earlier_texts_come_first(names, names[j], names[i]);
        assert(keys[i].1 == texts_before(names, names[i]) as i128);
        assert(keys[j].1 == texts_before(names, names[j]) as i128);
    }
}

proof fn few_scopes_are_named(threads: Seq<ThreadView>)
    ensures
        scopes_named(threads).len() <= threads.len(),
    decreases threads.len(),
{
    if threads.len() > 0 {
        few_scopes_are_named(threads.drop_last());
    }
}

// ---------------------------------------------------------------------------
// Threads
// ---------------------------------------------------------------------------

/// Touching a thread notes the moment on it and changes nothing else.
pub proof fn touching_changes_one_thread(threads: Seq<ThreadView>, id: Seq<char>, at: i64, i: int)
    requires
        0 <= i < threads.len(),
        forall|x: int, y: int| 0 <= x < y < threads.len() ==> (#[trigger] threads[x]).id != (#[trigger] threads[y]).id,
    ensures
        touched(threads, id, at).len() == threads.len(),
        threads[i].id == id ==> touched(threads, id, at)[i] == (ThreadView { updated_at: at, ..threads[i] }),
        threads[i].id != id ==> touched(threads, id, at)[i] == threads[i],
{
    slot_is_first(threads, thread_called(id));
    let k = slot(threads, thread_called(id));
    if threads[i].id == id {
        assert(thread_called(id)(threads[i]));
        if k < i {
            assert(threads[k].id != threads[i].id);
        }
    }
}

/// A scope has a thread once something is said in it: a new one, or the one it had, touched.
pub proof fn scopes_get_their_thread(threads: Seq<ThreadView>, scope: Seq<char>, now: i64)
    ensures
        ({
            let id = "scope:"@ + scope;
            let t = with_thread(threads, scope, now);
            &&& thread_in(t, id) is Some && thread_in(t, id)->0.updated_at == now && thread_in(t, id)->0.id == id
            &&& thread_in(threads, id) is None ==> t.drop_last() == threads && t.last().scope == scope && t.last().created_at
                == now && t.last().title == "Default"@
            &&& thread_in(threads, id) is Some ==> t.len() == threads.len() && thread_in(t, id)->0.created_at == thread_in(
                threads,
                id,
            )->0.created_at && thread_in(t, id)->0.scope == thread_in(threads, id)->0.scope
        }),
{
    let id = thread_id_of(scope);
    let t = with_thread(threads, scope, now);
    let c = thread_called(id);
    slot_is_first(threads, c);
    let k = slot(threads, c);
    if k < threads.len() {
        assert forall|i: int| 0 <= i < k implies !c(#[trigger] t[i]) by {
            assert(t[i] == threads[i]);
        }
        slot_at(t, c, k);
    } else {
        assert(t.drop_last() =~= threads);
        assert forall|i: int| 0 <= i < threads.len() implies !c(#[trigger] t[i]) by {
            assert(t[i] == threads[i]);
        }
        slot_at(t, c, threads.len() as int);
    }
}

// ---------------------------------------------------------------------------
// Files
// ---------------------------------------------------------------------------

/// A scope is written into a path with harmless characters only, one for one; a scope of harmless
/// characters stays as it is.
pub proof fn scopes_in_paths_are_harmless(scope: Seq<char>, i: int)
    requires
        0 <= i < scope_in_path(scope).len(),
    ensures
        ({
            let c = scope_in_path(scope)[i];
            ascii_alpha(c) || ascii_digit(c) || c == '-' || c == '_'
        }),
        scope_in_path(scope).len() > 0,
        scope.len() > 0 && (exists|k: int| 0 <= k < scope.len() && #[trigger] scope[k] != '_') && (forall|k: int|
            0 <= k < scope.len() ==> ascii_alpha(#[trigger] scope[k]) || ascii_digit(scope[k]) || scope[k] == '-' || scope[k]
                == '_') ==> scope_in_path(scope) == scope,
{
    reveal_strlit("scope");
    let out = scope.map_values(|c: char| scope_char(c));
    if scope.len() > 0 && (exists|k: int| 0 <= k < scope.len() && #[trigger] scope[k] != '_') && (forall|k: int|
        0 <= k < scope.len() ==> ascii_alpha(#[trigger] scope[k]) || ascii_digit(scope[k]) || scope[k] == '-' || scope[k]
            == '_') {
        assert(out =~= scope);
        let k = choose|k: int| 0 <= k < scope.len() && #[trigger] scope[k] != '_';
        assert(out[k] != '_');
    }
}

proof fn dots_are_left_out(s: Seq<char>)
    ensures
        past_dots(s).len() > 0 ==> past_dots(s)[0] != '.',
        before_dots(s).len() > 0 ==> before_dots(s).last() != '.',
        before_dots(s).len() <= s.len(),
        before_dots(s) == s.take(before_dots(s).len() as int),
        past_dots(s).len() <= s.len(),
        past_dots(s) == s.skip(s.len() - past_dots(s).len()),
    decreases s.len(),
{
    if s.len() > 0 && s[0] == '.' {
        dots_are_left_out(s.drop_first());
        let d = s.drop_first();
        assert(d.skip(d.len() - past_dots(d).len()) =~= s.skip(s.len() - past_dots(s).len()));
    } else {
        assert(s.skip(0) =~= s);
    }
    if s.len() > 0 && s.last() == '.' {
        dots_are_left_out(s.drop_last());
        let d = s.drop_last();
        assert(d.take(before_dots(d).len() as int) =~= s.take(before_dots(s).len() as int));
    } else {
        assert(s.take(s.len() as int) =~= s);
    }
}

proof fn trimming_keeps_the_middle(s: Seq<char>)
    ensures
        forall|c: char| trimmed(s).contains(c) ==> #[trigger] s.contains(c),
{
    assert forall|c: char| trimmed(s).contains(c) implies #[trigger] s.contains(c) by {
        end_part(trim_start(s), c);
        start_part(s, c);
    }
}

proof fn end_part(s: Seq<char>, c: char)
    requires
        trim_end(s).contains(c),
    ensures
        s.contains(c),
    decreases s.len(),
{
    if s.len() > 0 && white(s.last()) {
        end_part(s.drop_last(), c);
        let k = s.drop_last().index_of(c);
        assert(s[k] == c);
    }
}

proof fn start_part(s: Seq<char>, c: char)
    requires
        trim_start(s).contains(c),
    ensures
        s.contains(c),
    decreases s.len(),
{
    if s.len() > 0 && white(s[0]) {
        start_part(s.drop_first(), c);
        let k = s.drop_first().index_of(c);
        assert(s[k + 1] == c);
    }
}

/// A file's name in a path is never empty and holds no slash, no backslash and no control character.
pub proof fn names_in_paths_are_harmless(name: Seq<char>, i: int)
    requires
        0 <= i < name_in_path(name).len(),
    ensures
        name_in_path(name).len() > 0,
        ({
            let c = name_in_path(name)[i];
            c != '/' && c != '\\' && !control(c)
        }),
{
    reveal_strlit("attachment");
    let base = trimmed(last_part(name));
    let cleaned = base.map_values(|c: char| name_char(c));
    let a = past_dots(cleaned);
    let b = before_dots(a);
    let bare = trimmed(b);
    dots_are_left_out(cleaned);
    dots_are_left_out(a);
    trimming_keeps_the_middle(b);
    if bare.len() > 0 {
        let c = bare[i];
        assert(bare.contains(c));
        assert(b.contains(c));
        let k = b.index_of(c);
        assert(a[k] == c);
        let m = k + cleaned.len() - a.len();
        assert(cleaned[m] == c);
        assert(c == name_char(base[m]));
    }
}

/// A file is kept below its scope and its message, under its own name.
pub proof fn files_are_kept_by_scope_and_message(scope: Seq<char>, message_id: int, name: Seq<char>)
    ensures
        path_of(scope, message_id, name) == scope_in_path(scope) + "/"@ + signed_decimal(message_id) + "/"@ + name_in_path(name),
{
}

} // verus!
