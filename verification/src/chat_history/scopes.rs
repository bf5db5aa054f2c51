//! The scopes that have a thread.
use crate::chat_history::rows::{copy_scope, scopes_of, ChatScope, ChatScopeView, MessageView, ThreadView};
use crate::chat_history::store::{message_ids, thread_called, thread_in, ChatHistoryStore, HistoryView};
use crate::order::{count_texts_before, picked, positions, sort_order, sorted_rows, texts_before, Key};
use crate::table::{ids_bound_rows, kept, kept_grows, slot_at};
use crate::text::{push_text, same, str_strip, stripped, texts};
use vstd::prelude::*;

verus! {

/// How a scope is called.
pub open spec fn label_of_scope(scope: Seq<char>) -> Seq<char> {
    match stripped(scope, "user:tg-"@) {
        Some(id) => "Telegram "@ + id,
        None => match stripped(scope, "project:"@) {
            Some(project) => "Project "@ + project,
            None => if scope == "global"@ {
                "Global"@
            } else {
                scope
            },
        },
    }
}

/// How a scope is called.
pub fn scope_label(scope: &str) -> (r: String)
    ensures
        r@ == label_of_scope(scope@),
{
    if let Some(id) = str_strip(scope, "user:tg-") {
        let mut s = String::from_str("Telegram ");
        s.append(id.as_str());
        return s;
    }
    if let Some(project) = str_strip(scope, "project:") {
        let mut s = String::from_str("Project ");
        s.append(project.as_str());
        return s;
    }
    if same(scope, "global") {
        "Global".to_owned()
    } else {
        scope.to_owned()
    }
}

/// The scopes of threads, each once.
pub open spec fn scopes_named(threads: Seq<ThreadView>) -> Seq<Seq<char>>
    decreases threads.len(),
{
    if threads.len() == 0 {
        Seq::empty()
    } else {
        let before = scopes_named(threads.drop_last());
        if before.contains(threads.last().scope) {
            before
        } else {
            before.push(threads.last().scope)
        }
    }
}

/// When a thread of a scope was last touched.
pub open spec fn last_touch(threads: Seq<ThreadView>, scope: Seq<char>) -> Option<i64>
    decreases threads.len(),
{
    if threads.len() == 0 {
        None
    } else {
        let before = last_touch(threads.drop_last(), scope);
        let t = threads.last();
        if t.scope != scope {
            before
        } else {
            match before {
                Some(at) => Some(
                    if at >= t.updated_at {
                        at
                    } else {
                        t.updated_at
                    },
                ),
                None => Some(t.updated_at),
            }
        }
    }
}

/// The message is in a thread of a scope.
pub open spec fn said_in(threads: Seq<ThreadView>, scope: Seq<char>) -> spec_fn(MessageView) -> bool {
    |m: MessageView| thread_in(threads, m.thread_id) matches Some(t) && t.scope == scope
}

/// What is told of a scope.
pub open spec fn scope_entry(v: HistoryView, scope: Seq<char>) -> ChatScopeView {
    ChatScopeView {
        scope,
        label: label_of_scope(scope),
        message_count: kept(v.messages, said_in(v.threads, scope)).len() as i64,
        updated_at: match last_touch(v.threads, scope) {
            Some(at) => at,
            None => 0,
        },
    }
}

/// What is told of scopes.
pub open spec fn scope_entries(v: HistoryView, names: Seq<Seq<char>>) -> Seq<ChatScopeView> {
    names.map_values(|s: Seq<char>| scope_entry(v, s))
}

/// Scopes are ordered by when they were touched, the last first, and by their names.
pub open spec fn scope_keys(v: HistoryView, names: Seq<Seq<char>>) -> Seq<Key> {
    names.map_values(
        |s: Seq<char>| (-(scope_entry(v, s).updated_at as i128) as i128, texts_before(names, s) as i128),
    )
}

/// The scopes that have a thread, in order, and the usual one behind them where it has none.
pub open spec fn scopes_listed(v: HistoryView, usual: Seq<char>) -> Seq<ChatScopeView> {
    let names = scopes_named(v.threads);
    let sorted = sorted_rows(scope_entries(v, names), scope_keys(v, names));
    if names.contains(usual) {
        sorted
    } else {
        sorted.push(
            ChatScopeView { scope: usual, label: label_of_scope(usual), message_count: 0, updated_at: 0 },
        )
    }
}

fn among(names: &Vec<String>, name: &str) -> (r: bool)
    ensures
        r == texts(names@).contains(name@),
{
    let mut i: usize = 0;
    while i < names.len()
        invariant
            i <= names.len(),
            forall|k: int| 0 <= k < i ==> #[trigger] texts(names@)[k] != name@,
        decreases names.len() - i,
    {
        assert(texts(names@)[i as int] == names@[i as int]@);
        if same(names[i].as_str(), name) {
            assert(texts(names@).contains(name@));
            return true;
        }
        i = i + 1;
    }
    false
}

impl ChatHistoryStore {
    fn scope_names(&self) -> (r: Vec<String>)
        ensures
            texts(r@) == scopes_named(self@.threads),
    {
        let ghost threads = self@.threads;
        let mut r: Vec<String> = Vec::new();
        let mut i: usize = 0;
        assert(texts(r@) =~= scopes_named(threads.take(0)));
        while i < self.threads.len()
            invariant
                i <= self.threads.len(),
                threads == self@.threads,
                texts(r@) == scopes_named(threads.take(i as int)),
            decreases self.threads.len() - i,
        {
            assert(threads.take(i + 1).drop_last() =~= threads.take(i as int));
            assert(threads[i as int] == self.threads@[i as int]@);
            let scope = self.threads[i].scope.as_str();
            if !among(&r, scope) {
                push_text(&mut r, scope);
            }
            i = i + 1;
        }
        assert(threads.take(i as int) =~= threads);
        r
    }

    fn touched_last(&self, scope: &str) -> (r: Option<i64>)
        ensures
            r == last_touch(self@.threads, scope@),
    {
        let ghost threads = self@.threads;
        let mut r: Option<i64> = None;
        let mut i: usize = 0;
        while i < self.threads.len()
            invariant
                i <= self.threads.len(),
                threads == self@.threads,
                r == last_touch(threads.take(i as int), scope@),
            decreases self.threads.len() - i,
        {
            assert(threads.take(i + 1).drop_last() =~= threads.take(i as int));
            assert(threads[i as int] == self.threads@[i as int]@);
            if same(self.threads[i].scope.as_str(), scope) {
                let at = self.threads[i].updated_at;
                r = match r {
                    Some(before) => if before >= at {
                        Some(before)
                    } else {
                        Some(at)
                    },
                    None => Some(at),
                };
            }
            i = i + 1;
        }
        assert(threads.take(i as int) =~= threads);
        r
    }

    fn thread_is_of(&self, thread_id: &str, scope: &str) -> (r: bool)
        ensures
            r == (thread_in(self@.threads, thread_id@) matches Some(t) && t.scope == scope@),
    {
        let ghost wanted = thread_called(thread_id@);
        let mut i: usize = 0;
        while i < self.threads.len()
            invariant
                i <= self.threads.len(),
                wanted == thread_called(thread_id@),
                forall|k: int| 0 <= k < i ==> !wanted(#[trigger] self@.threads[k]),
            decreases self.threads.len() - i,
        {
            assert(self@.threads[i as int] == self.threads@[i as int]@);
            if same(self.threads[i].id.as_str(), thread_id) {
                proof {
                    slot_at(self@.threads, wanted, i as int);
                }
                return same(self.threads[i].scope.as_str(), scope);
            }
            i = i + 1;
        }
        proof {
            slot_at(self@.threads, wanted, i as int);
        }
        false
    }

    fn said_total(&self, scope: &str) -> (r: i64)
        requires
            self@.wf(),
        ensures
            r == kept(self@.messages, said_in(self@.threads, scope@)).len(),
    {
        let ghost rows = self@.messages;
        let ghost keep = said_in(self@.threads, scope@);
        let mut n: i64 = 0;
        let mut i: usize = 0;
        proof {
            ids_bound_rows(message_ids(rows), self@.last_message_id + 1);
        }
        while i < self.messages.len()
            invariant
                i <= self.messages.len(),
                rows == self@.messages,
                keep == said_in(self@.threads, scope@),
                rows.len() <= i64::MAX,
                n == kept(rows.take(i as int), keep).len(),
                n <= i,
            decreases self.messages.len() - i,
        {
            proof {
                kept_grows(rows, keep, i as int);
            }
            assert(rows[i as int] == self.messages@[i as int]@);
            if self.thread_is_of(self.messages[i].thread_id.as_str(), scope) {
                n = n + 1;
            }
            i = i + 1;
        }
        assert(rows.take(i as int) =~= rows);
        n
    }

    /// The scopes that have a thread, the last touched first, and the usual one.
    pub fn list_scopes(&self, default_scope: &str) -> (r: Vec<ChatScope>)
        requires
            self@.wf(),
        ensures
            scopes_of(r@) == scopes_listed(self@, default_scope@),
    {
        let names = self.scope_names();
        let ghost list = texts(names@);
        let ghost goal = scope_entries(self@, list);
        let ghost goal_keys = scope_keys(self@, list);
        let mut entries: Vec<ChatScope> = Vec::new();
        let mut keys: Vec<Key> = Vec::new();
        let mut i: usize = 0;
        while i < names.len()
            invariant
                i <= names.len(),
                self@.wf(),
                list == texts(names@),
                goal == scope_entries(self@, list),
                goal_keys == scope_keys(self@, list),
                entries@.len() == i,
                keys@.len() == i,
                forall|k: int| 0 <= k < i ==> (#[trigger] entries@[k])@ == goal[k],
                forall|k: int| 0 <= k < i ==> #[trigger] keys@[k] == goal_keys[k],
            decreases names.len() - i,
        {
            assert(list[i as int] == names@[i as int]@);
            let name = names[i].as_str();
            let updated_at: i64 = match self.touched_last(name) {
                Some(at) => at,
                None => 0,
            };
            let before: usize = count_texts_before(&names, name);
            entries.push(
                ChatScope {
                    scope: name.to_owned(),
                    label: scope_label(name),
                    message_count: self.said_total(name),
                    updated_at,
                },
            );
            keys.push((-(updated_at as i128), before as i128));
            assert(entries@[i as int]@ == goal[i as int]);
            assert(keys@[i as int] == goal_keys[i as int]);
            i = i + 1;
        }
        assert(scopes_of(entries@) =~= goal);
        assert(keys@ =~= goal_keys);
        let order = sort_order(&keys);
        let ghost sorted = sorted_rows(goal, goal_keys);
        let mut r: Vec<ChatScope> = Vec::new();
        let mut j: usize = 0;
        while j < order.len()
            invariant
                j <= order.len(),
                sorted == picked(scopes_of(entries@), positions(order@)),
                forall|k: int| 0 <= k < order@.len() ==> #[trigger] order@[k] < entries@.len(),
                r@.len() == j,
                forall|x: int| 0 <= x < j ==> (#[trigger] r@[x])@ == sorted[x],
            decreases order.len() - j,
        {
            let p: usize = order[j];
            assert(sorted[j as int] == scopes_of(entries@)[p as int]);
            r.push(copy_scope(&entries[p]));
            j = j + 1;
        }
        assert(scopes_of(r@) =~= sorted);
        if !among(&names, default_scope) {
            r.push(
                ChatScope {
                    scope: default_scope.to_owned(),
                    label: scope_label(default_scope),
                    message_count: 0,
                    updated_at: 0,
                },
            );
            assert(scopes_of(r@) =~= sorted.push(
                ChatScopeView {
                    scope: default_scope@,
                    label: label_of_scope(default_scope@),
                    message_count: 0,
                    updated_at: 0,
                },
            ));
        }
        r
    }
}

/// Every scope with a thread is named, and once.
pub proof fn scopes_are_named_once(threads: Seq<ThreadView>)
    ensures
        scopes_named(threads).no_duplicates(),
        forall|i: int| 0 <= i < threads.len() ==> scopes_named(threads).contains((#[trigger] threads[i]).scope),
    decreases threads.len(),
{
    if threads.len() > 0 {
        let d = threads.drop_last();
        scopes_are_named_once(d);
        let before = scopes_named(d);
        let r = scopes_named(threads);
        assert forall|i: int| 0 <= i < threads.len() implies r.contains((#[trigger] threads[i]).scope) by {
            if i < d.len() {
                assert(before.contains(d[i].scope));
                let k = before.index_of(d[i].scope);
                assert(r[k] == before[k]);
            } else if !before.contains(threads.last().scope) {
                assert(r[before.len() as int] == threads[i].scope);
            }
        }
        assert forall|a: int, b: int| 0 <= a < r.len() && 0 <= b < r.len() && a != b implies r[a] != r[b] by {
            if a == before.len() {
                assert(before.contains(before[b]));
            } else if b == before.len() {
                assert(before.contains(before[a]));
            }
        }
    }
}

} // verus!
