//! What is told of the memory: records, counts, exports and fingerprints.
use crate::memory::answering::{hash_of, hex, hex_digit};
use crate::memory::embed::bucket;
use crate::memory::laws::{all_that_meet_are_selected, conditions_sort_out, not_after};
use crate::memory::markdown::{
    days_before_year, entry_text, leap, moment, month_days, padded, scope_file, zeros,
};
use crate::memory::model::{kind_of, kind_word, mode_word, MemoryKind, RecallMode, Snapshot};
use crate::memory::queries::{
    any_row, as_candidates, bounded, exported, listed, prunable_rows, record_of, rows_asked,
    selected, ConditionView, RowOrder,
};
use crate::memory::reports::{
    days_ago, embedded_rows, is_snapshot, kind_shown, made_between, number_of, StoredKind,
};
use crate::memory::rows::{item_ids, memory_id, with_items, ItemView};
use crate::memory::store::{MemoryRowView, StoreView};
use crate::order::{rank_of, text_before, Real};
use crate::text::{decimal, digit, has, parts_are_found, trimmed};
use crate::text_laws::trimming_takes_white_space_off;
use vstd::prelude::*;

verus! {

// ---------------------------------------------------------------------------
// Records
// ---------------------------------------------------------------------------

/// A memory is shown as it is stored, in every field; of its meaning only whether it is known.
pub proof fn records_show_what_is_stored(r: MemoryRowView)
    ensures
        ({
            let s = record_of(r);
            &&& s.id == r.id && s.scope == r.scope && s.session_id == r.session_id && s.kind == r.kind && s.text == r.text
            &&& s.importance == r.importance && s.created_at == r.created_at && s.last_recalled_at == r.last_recalled_at
            &&& s.recall_count == r.recall_count && s.consolidated_into == r.consolidated_into
            &&& s.has_embedding <==> r.embedding is Some
        }),
{
}

/// A memory is found as it is stored, named by the source that found it, with nothing yet said of how well
/// it fits.
pub proof fn candidates_are_what_is_stored(rows: Seq<MemoryRowView>, sources: Seq<Seq<char>>, i: int)
    requires
        0 <= i < rows.len(),
    ensures
        ({
            let (c, r) = (as_candidates(rows, sources)[i], rows[i]);
            &&& as_candidates(rows, sources).len() == rows.len()
            &&& c.id == r.id && c.scope == r.scope && c.kind == r.kind && c.text == r.text && c.created_at == r.created_at
            &&& c.recall_count == r.recall_count && c.importance == r.importance
            &&& c.bm25 is None && c.vector_sim is None && c.source_signals == sources
        }),
{
}

/// The records asked for are those of the scope and of the category, the newest first; one is missing only
/// where as many as asked for are listed.
pub proof fn records_are_listed_by_scope_and_kind(
    rows: Seq<MemoryRowView>,
    scope: Option<Seq<char>>,
    kind: Option<MemoryKind>,
    limit: int,
    i: int,
)
    requires
        0 <= i < rows.len(),
        scope is None || scope->0 == rows[i].scope,
        kind is None || (kind->0 == rows[i].kind && rows[i].word is None),
    ensures
        listed(rows, scope, kind, limit).contains(record_of(rows[i])) || (limit >= 0 && listed(rows, scope, kind, limit).len()
            == limit),
{
    let c = rows_asked(scope, kind);
    let s = selected(rows, c, RowOrder::NewestRow, limit);
    if scope is Some {
        assert(seq![scope->0][0] == rows[i].scope);
    }
    assert(c.met(rows[i]));
    all_that_meet_are_selected(rows, c, RowOrder::NewestRow, limit);
    if s.contains(rows[i]) {
        let k = s.index_of(rows[i]);
        assert(listed(rows, scope, kind, limit)[k] == record_of(rows[i]));
    }
}

/// Every memory is exported once, with its scope, its moment, its category and its text, the oldest first.
pub proof fn every_memory_is_exported(rows: Seq<MemoryRowView>, i: int)
    requires
        0 <= i < rows.len(),
    ensures
        exported(rows).contains((rows[i].scope, rows[i].created_at, rows[i].kind, rows[i].text)),
        exported(rows).len() <= rows.len(),
        forall|a: int, b: int| 0 <= a < b < exported(rows).len() ==> (#[trigger] exported(rows)[a]).1 <= (#[trigger] exported(
            rows,
        )[b]).1,
{
    let c = ConditionView::Rows(any_row());
    let s = selected(rows, c, RowOrder::Oldest, -1);
    all_that_meet_are_selected(rows, c, RowOrder::Oldest, -1);
    assert(c.met(rows[i]));
    let k = s.index_of(rows[i]);
    assert(exported(rows)[k] == (rows[i].scope, rows[i].created_at, rows[i].kind, rows[i].text));
    assert forall|a: int, b: int| 0 <= a < b < exported(rows).len() implies (#[trigger] exported(rows)[a]).1 <= (
    #[trigger] exported(rows)[b]).1 by {
        assert(not_after(RowOrder::Oldest, s[a], s[b]));
    }
}

/// A limit outside its bounds counts as the nearer bound.
pub proof fn limits_stay_inside(limit: int, least: int, most: int)
    requires
        least <= most,
    ensures
        least <= bounded(limit, least, most) <= most,
        least <= limit <= most ==> bounded(limit, least, most) == limit,
        limit < least ==> bounded(limit, least, most) == least,
        limit > most ==> bounded(limit, least, most) == most,
{
}

/// Each item gets the id under which it is found again: that of the memory with its key, or a new one.
pub proof fn items_get_their_ids(
    s: StoreView,
    session_id: Option<Seq<char>>,
    scope: Seq<char>,
    items: Seq<ItemView>,
    next: ItemView,
    now: i64,
)
    ensures
        item_ids(s, session_id, scope, Seq::empty(), now).len() == 0,
        item_ids(s, session_id, scope, items.push(next), now) == item_ids(s, session_id, scope, items, now).push(
            memory_id(with_items(s, session_id, scope, items, now), next.dedupe_key),
        ),
        next.dedupe_key is None ==> memory_id(with_items(s, session_id, scope, items, now), next.dedupe_key) == (
            with_items(s, session_id, scope, items, now).next_id,
            true,
        ),
{
    assert(items.push(next).drop_last() =~= items);
}

// ---------------------------------------------------------------------------
// Counts
// ---------------------------------------------------------------------------

/// As many are counted as meet the condition.
pub proof fn counts_count_what_meets(rows: Seq<MemoryRowView>, c: ConditionView)
    ensures
        number_of(rows, c) == rows.filter(|r: MemoryRowView| c.met(r)).len(),
{
    conditions_sort_out(rows, c);
}

/// What lies between two moments was made at the first one or later, and before the second.
pub proof fn spans_are_half_open(r: MemoryRowView, scope: Seq<char>, since: i64, before: i64)
    ensures
        made_between(None, Some(since), Some(before)).met(r) <==> since <= r.created_at < before,
        made_between(None, Some(since), None).met(r) <==> since <= r.created_at,
        made_between(None, None, Some(before)).met(r) <==> r.created_at < before,
        made_between(Some(scope), Some(since), Some(before)).met(r) <==> r.scope == scope && since <= r.created_at < before,
        embedded_rows(None).met(r) <==> r.embedding is Some,
        embedded_rows(Some(scope)).met(r) <==> r.scope == scope && r.embedding is Some,
        rows_asked(None, None).met(r),
        rows_asked(Some(scope), None).met(r) <==> r.scope == scope,
{
    let s = seq![scope];
    assert(s[0] == scope);
    if s.contains(r.scope) {
        assert(s.index_of(r.scope) == 0);
    }
}

/// A day has as many seconds as it has.
pub proof fn days_are_days(now: i64, days: int)
    requires
        i64::MIN <= now - days * 86_400 <= i64::MAX,
    ensures
        days_ago(now, days) is Some,
        now - days_ago(now, days)->0 == days * 24 * 60 * 60,
{
}

/// A snapshot of everything counts the memories of the last day, of the six days before, of the month and
/// of all time before, those whose meaning is known, and those that may be forgotten.
pub proof fn snapshots_count(rows: Seq<MemoryRowView>, now: i64, max_age: i64, floor: Real, s: Snapshot)
    requires
        is_snapshot(rows, None, now, max_age, floor, s),
        now - 30 * 86_400 >= i64::MIN,
        i64::MIN <= now - max_age <= i64::MAX,
    ensures
        s.total == rows.len(),
        s.age.last_day == rows.filter(
            |r: MemoryRowView| made_between(None, Some((now - 86_400) as i64), None).met(r),
        ).len(),
        s.age.older == rows.filter(
            |r: MemoryRowView| made_between(None, None, Some((now - 30 * 86_400) as i64)).met(r),
        ).len(),
        s.embedding.embedded == rows.filter(|r: MemoryRowView| embedded_rows(None).met(r)).len(),
        s.prune_candidates == rows.filter(
            |r: MemoryRowView| prunable_rows(None, max_age, floor, now).met(r),
        ).len(),
{
    conditions_sort_out(rows, made_between(None, Some((now - 86_400) as i64), None));
    conditions_sort_out(rows, made_between(None, None, Some((now - 30 * 86_400) as i64)));
    conditions_sort_out(rows, embedded_rows(None));
    conditions_sort_out(rows, prunable_rows(None, max_age, floor, now));
}

/// The cutoff lies as far back as the age allowed.
pub proof fn the_cutoff_lies_back(r: MemoryRowView, max_age: i64, floor: Real, now: i64)
    requires
        i64::MIN <= now - max_age <= i64::MAX,
        r.consolidated_into is None,
        r.kind is Note,
        r.word is None,
        r.recall_count == 0,
        rank_of(r.importance) < rank_of(floor),
    ensures
        prunable_rows(None, max_age, floor, now).met(r) <==> now - r.created_at > max_age,
{
}

// ---------------------------------------------------------------------------
// Orders
// ---------------------------------------------------------------------------

/// Texts are ordered by their first difference, and a text comes before every longer one that it begins.
pub proof fn texts_are_ordered_by_their_first_difference(front: Seq<char>, a: Seq<char>, b: Seq<char>)
    ensures
        a.len() > 0 && b.len() > 0 && (a[0] as u32) < (b[0] as u32) ==> text_before(front + a, front + b) && !text_before(
            front + b,
            front + a,
        ),
        b.len() > 0 ==> text_before(front, front + b) && !text_before(front + b, front),
        !text_before(front, front),
    decreases front.len(),
{
    if front.len() > 0 {
        let d = front.drop_first();
        texts_are_ordered_by_their_first_difference(d, a, b);
        assert((front + a).drop_first() =~= d + a);
        assert((front + b).drop_first() =~= d + b);
    } else {
        assert(front + a =~= a);
        assert(front + b =~= b);
    }
}

proof fn codes_differ(a: char, b: char)
    requires
        a != b,
    ensures
        a as u32 != b as u32,
{
}

/// The calendar comes round after four hundred years.
pub proof fn the_calendar_comes_round(y: int)
    ensures
        days_before_year(y + 400) - days_before_year(y) == 146_097,
{
    assert((y + 400 + 3) / 4 == (y + 3) / 4 + 100);
    assert((y + 400 + 99) / 100 == (y + 99) / 100 + 4);
    assert((y + 400 + 399) / 400 == (y + 399) / 400 + 1);
}

/// Every fourth year is a leap year, but for the centuries that four hundred does not divide.
pub proof fn leap_years_by_number(y: int)
    ensures
        y % 4 != 0 ==> !leap(y),
        y % 4 == 0 && y % 100 != 0 ==> leap(y),
        y % 4 == 0 && y % 400 == 0 ==> leap(y),
        y % 100 == 0 && y % 400 != 0 ==> !leap(y),
{
}

/// Months are as long as they are.
pub proof fn months_are_as_long_as_they_are(y: int)
    ensures
        month_days(y, 1) == 31,
        month_days(y, 2) == (if leap(y) {
            29int
        } else {
            28int
        }),
        month_days(y, 3) == 31,
        month_days(y, 4) == 30,
        month_days(y, 5) == 31,
        month_days(y, 6) == 30,
        month_days(y, 7) == 31,
        month_days(y, 8) == 31,
        month_days(y, 9) == 30,
        month_days(y, 10) == 31,
        month_days(y, 11) == 30,
        month_days(y, 12) == 31,
{
}

/// The two digits of a number below a hundred.
pub open spec fn two_digits(n: int) -> Seq<char> {
    seq![(48 + n / 10) as char, (48 + n % 10) as char]
}

proof fn two_digits_are_padded(n: int)
    requires
        0 <= n < 100,
    ensures
        padded(n, 2) == two_digits(n),
{
    if n < 10 {
        assert(decimal(n as nat) =~= seq![digit(n)]);
        assert(zeros(1) =~= seq!['0']);
        assert(padded(n, 2) =~= two_digits(n));
    } else {
        assert(decimal((n / 10) as nat) =~= seq![digit(n / 10)]);
        assert(decimal(n as nat) =~= seq![digit(n / 10), digit(n % 10)]);
        assert(padded(n, 2) =~= two_digits(n));
    }
}

proof fn four_digits_are_padded(n: int)
    requires
        1000 <= n < 10_000,
    ensures
        padded(n, 4) == two_digits(n / 100) + two_digits(n % 100),
{
    let d = decimal(n as nat);
    let h = decimal((n / 10) as nat);
    let c = decimal((n / 100) as nat);
    assert(decimal((n / 1000) as nat) =~= seq![digit(n / 1000)]);
    assert((n / 100) / 10 == n / 1000);
    assert((n / 10) / 10 == n / 100);
    assert(c =~= seq![digit(n / 1000), digit((n / 100) % 10)]);
    assert(h =~= c.push(digit((n / 10) % 10)));
    assert(d =~= h.push(digit(n % 10)));
    assert((n % 100) / 10 == (n / 10) % 10);
    assert((n % 100) % 10 == n % 10);
    assert(padded(n, 4) =~= two_digits(n / 100) + two_digits(n % 100));
}

/// A moment is written with the four digits of its year and two for each of the month, the day, the hour,
/// the minute and the second.
pub proof fn moments_are_written_in_full(y: int, m: int, d: int, hour: int, minute: int, second: int)
    requires
        1000 <= y < 10_000,
        1 <= m <= 12,
        1 <= d <= 31,
        0 <= hour < 24,
        0 <= minute < 60,
        0 <= second < 60,
    ensures
        moment(y, m, d, 3600 * hour + 60 * minute + second) == two_digits(y / 100) + two_digits(y % 100) + seq!['-']
            + two_digits(m) + seq!['-'] + two_digits(d) + seq!['T'] + two_digits(hour) + seq![':'] + two_digits(minute)
            + seq![':'] + two_digits(second) + seq!['Z'],
        moment(y, m, d, 3600 * hour + 60 * minute + second).len() == 20,
{
    let secs = 3600 * hour + 60 * minute + second;
    assert(secs / 3600 == hour);
    assert((secs % 3600) / 60 == minute);
    assert(secs % 60 == second);
    four_digits_are_padded(y);
    two_digits_are_padded(m);
    two_digits_are_padded(d);
    two_digits_are_padded(hour);
    two_digits_are_padded(minute);
    two_digits_are_padded(second);
    reveal_strlit("-");
    reveal_strlit("T");
    reveal_strlit(":");
    reveal_strlit("Z");
    assert("-"@ =~= seq!['-']);
    assert("T"@ =~= seq!['T']);
    assert(":"@ =~= seq![':']);
    assert("Z"@ =~= seq!['Z']);
}

/// Words that are no category are counted as what they are read as.
pub proof fn other_words_are_counted_as_notes(w: Seq<char>, k: MemoryKind)
    ensures
        kind_shown(StoredKind::Known(k)) == k,
        (forall|j: MemoryKind| #[trigger] kind_word(j) != w) ==> kind_shown(StoredKind::Word(w)) == kind_of(w),
{
    assert(kind_word(MemoryKind::Decision) == "decision"@);
    assert(kind_word(MemoryKind::Event) == "event"@);
    assert(kind_word(MemoryKind::Skill) == "skill"@);
    assert(kind_word(MemoryKind::Summary) == "summary"@);
}

/// Each way of recalling has a word of its own.
pub proof fn ways_of_recalling_are_told_apart(a: RecallMode, b: RecallMode)
    ensures
        mode_word(RecallMode::Keyword) == "keyword"@,
        mode_word(RecallMode::Tree) == "tree"@,
        mode_word(RecallMode::Hybrid) == "hybrid"@,
        mode_word(a) == mode_word(b) ==> a == b,
{
    reveal_strlit("keyword");
    reveal_strlit("tree");
    reveal_strlit("hybrid");
    assert("keyword"@.len() == 7);
    assert("tree"@.len() == 4);
    assert("hybrid"@.len() == 6);
}

/// The order of texts is one: of two different texts one comes first, and what comes before what comes
/// before a text comes before it.
pub proof fn texts_have_an_order(a: Seq<char>, b: Seq<char>, c: Seq<char>)
    ensures
        text_before(a, b) || text_before(b, a) || a == b,
        !(text_before(a, b) && text_before(b, a)),
        text_before(a, b) && text_before(b, c) ==> text_before(a, c),
    decreases a.len(),
{
    if a.len() > 0 && b.len() > 0 && a[0] == b[0] {
        texts_have_an_order(a.drop_first(), b.drop_first(), c.drop_first());
        assert(seq![a[0]] + a.drop_first() =~= a);
        assert(seq![b[0]] + b.drop_first() =~= b);
    } else if a.len() == 0 && b.len() == 0 {
        assert(a =~= b);
    }
    if a.len() > 0 && b.len() > 0 && a[0] != b[0] {
        codes_differ(a[0], b[0]);
    }
}

/// Numbers are ordered by their value: below zero the larger one is smaller, and both zeros are the same.
pub proof fn numbers_are_ordered_by_value(a: u64, b: u64)
    requires
        a < b < 0x8000_0000_0000_0000,
    ensures
        rank_of(Real { bits: a }) < rank_of(Real { bits: b }),
        rank_of(Real { bits: (0x8000_0000_0000_0000 + a) as u64 }) > rank_of(
            Real { bits: (0x8000_0000_0000_0000 + b) as u64 },
        ),
        rank_of(Real { bits: (0x8000_0000_0000_0000 + b) as u64 }) < rank_of(Real { bits: a }),
        rank_of(Real { bits: 0x8000_0000_0000_0000 }) == rank_of(Real { bits: 0 }),
{
}

// ---------------------------------------------------------------------------
// Files
// ---------------------------------------------------------------------------

/// A number is written with zeros before it, up to the width asked for, and never cut.
pub proof fn numbers_are_padded(n: nat, width: int)
    ensures
        padded(n as int, width).len() >= width,
        padded(n as int, width).len() >= decimal(n).len(),
        padded(n as int, width).skip(padded(n as int, width).len() - decimal(n).len()) == decimal(n),
        forall|i: int| 0 <= i < padded(n as int, width).len() - decimal(n).len() ==> #[trigger] padded(n as int, width)[i] == '0',
        decimal(n).len() >= width ==> padded(n as int, width) == decimal(n),
{
    let p = padded(n as int, width);
    let d = decimal(n);
    assert(p.skip(p.len() - d.len()) =~= d);
    if d.len() >= width {
        assert(p =~= d);
    }
}

/// An entry of a file holds its moment, its category and its text.
pub proof fn entries_hold_their_text(when: Seq<char>, kind: MemoryKind, text: Seq<char>)
    ensures
        has(entry_text(when, kind, text), when),
        has(entry_text(when, kind, text), kind_word(kind)),
        has(entry_text(when, kind, text), text),
{
    let full = entry_text(when, kind, text);
    let k = kind_word(kind);
    parts_are_found("## "@, when, " · "@ + k + "\n"@ + text + "\n\n"@);
    assert("## "@ + when + (" · "@ + k + "\n"@ + text + "\n\n"@) =~= full);
    parts_are_found("## "@ + when + " · "@, k, "\n"@ + text + "\n\n"@);
    assert("## "@ + when + " · "@ + k + ("\n"@ + text + "\n\n"@) =~= full);
    parts_are_found("## "@ + when + " · "@ + k + "\n"@, text, "\n\n"@);
    assert("## "@ + when + " · "@ + k + "\n"@ + text + "\n\n"@ =~= full);
}

/// A scope's file is named like the scope, with an underscore for each colon and slash.
pub proof fn files_are_named_like_their_scope(scope: Seq<char>, i: int)
    requires
        0 <= i < scope.len(),
    ensures
        scope_file(scope).len() == scope.len() + ".md"@.len(),
        scope[i] == ':' || scope[i] == '/' || scope[i] == '\\' ==> scope_file(scope)[i] == '_',
        scope[i] != ':' && scope[i] != '/' && scope[i] != '\\' ==> scope_file(scope)[i] == scope[i],
        scope_file(scope).skip(scope.len() as int) == ".md"@,
{
    assert(scope_file(scope).skip(scope.len() as int) =~= ".md"@);
}

// ---------------------------------------------------------------------------
// Fingerprints
// ---------------------------------------------------------------------------

/// The number that hexadecimal digits stand for.
pub open spec fn hex_value(s: Seq<char>) -> int
    decreases s.len(),
{
    if s.len() == 0 {
        0
    } else {
        16 * hex_value(s.drop_last()) + (if s.last() as u32 >= 97 {
            s.last() as u32 - 87
        } else {
            s.last() as u32 - 48
        })
    }
}

/// How many numbers so many hexadecimal digits tell apart.
pub open spec fn sixteens(digits: nat) -> nat
    decreases digits,
{
    if digits == 0 {
        1
    } else {
        16 * sixteens((digits - 1) as nat)
    }
}

proof fn hex_digits(n: int, digits: nat)
    requires
        0 <= n,
    ensures
        hex(n, digits).len() == digits,
        forall|i: int|
            0 <= i < digits ==> ('0' <= #[trigger] hex(n, digits)[i] <= '9' || 'a' <= hex(n, digits)[i] <= 'f'),
        n < sixteens(digits) ==> hex_value(hex(n, digits)) == n,
    decreases digits,
{
    if digits > 0 {
        hex_digits(n / 16, (digits - 1) as nat);
        let s = hex(n, digits);
        let d = hex(n / 16, (digits - 1) as nat);
        assert(s.drop_last() =~= d);
        let x = n % 16;
        assert(0 <= x < 16);
        assert(s.last() == hex_digit(x));
        assert forall|i: int| 0 <= i < digits implies ('0' <= #[trigger] s[i] <= '9' || 'a' <= s[i] <= 'f') by {
            if i < d.len() {
                assert(s[i] == d[i]);
            }
        }
    }
}

/// The fingerprint of a question has sixteen hexadecimal digits, which stand for the mixture of its bytes,
/// and is the same with and without white space around the question.
pub proof fn fingerprints_are_short(query: Seq<char>)
    ensures
        hash_of(query).len() == 16,
        forall|i: int| 0 <= i < 16 ==> ('0' <= #[trigger] hash_of(query)[i] <= '9' || 'a' <= hash_of(query)[i] <= 'f'),
        hash_of(trimmed(query)) == hash_of(query),
        hex_value(hash_of(query)) == crate::memory::answering::mixed(vstd::utf8::encode_utf8(trimmed(query))),
{
    assert(sixteens(16) == 0x1_0000_0000_0000_0000) by {
        reveal_with_fuel(sixteens, 17);
    }
    let n = crate::memory::answering::mixed(vstd::utf8::encode_utf8(trimmed(query))) as int;
    hex_digits(n, 16);
    trimming_takes_white_space_off(query);
}

/// How many bytes fall into the first so many buckets.
pub open spec fn first_buckets(bytes: Seq<u8>, dim: int, n: nat) -> nat
    decreases n,
{
    if n == 0 {
        0
    } else {
        first_buckets(bytes, dim, (n - 1) as nat) + bucket(bytes, dim, n - 1)
    }
}

proof fn one_more_byte(bytes: Seq<u8>, dim: int, n: nat, b: u8)
    requires
        dim > 0,
        n <= dim,
    ensures
        ({
            let k = (b + bytes.len()) % dim;
            first_buckets(bytes.push(b), dim, n) == first_buckets(bytes, dim, n) + (if k < n {
                1nat
            } else {
                0
            })
        }),
    decreases n,
{
    assert(0 <= (b + bytes.len()) % dim < dim) by (nonlinear_arith)
        requires
            dim > 0,
    ;
    assert(bytes.push(b).drop_last() =~= bytes);
    if n > 0 {
        one_more_byte(bytes, dim, (n - 1) as nat, b);
    }
}

/// Every byte of a text falls into exactly one bucket.
pub proof fn every_byte_has_its_bucket(bytes: Seq<u8>, dim: int)
    requires
        dim > 0,
    ensures
        first_buckets(bytes, dim, dim as nat) == bytes.len(),
    decreases bytes.len(),
{
    if bytes.len() > 0 {
        let d = bytes.drop_last();
        every_byte_has_its_bucket(d, dim);
        one_more_byte(d, dim, dim as nat, bytes.last());
        assert(0 <= (bytes.last() + d.len()) % dim < dim) by (nonlinear_arith)
            requires
                dim > 0,
        ;
        assert(d.push(bytes.last()) =~= bytes);
    } else {
        no_byte_no_bucket(bytes, dim, dim as nat);
    }
}

proof fn no_byte_no_bucket(bytes: Seq<u8>, dim: int, n: nat)
    requires
        bytes.len() == 0,
    ensures
        first_buckets(bytes, dim, n) == 0,
    decreases n,
{
    if n > 0 {
        no_byte_no_bucket(bytes, dim, (n - 1) as nat);
    }
}

} // verus!
