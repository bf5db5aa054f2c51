//! What is looked for when something is recalled, and what is answered.
use crate::memory::answering::{
    confidence_in, gathered, meaning_limit, search_for, source_limit, SearchView,
};
use crate::memory::candidates::{
    admitted_scopes, age_of, all_joined, closest, combined, descending_key, extremes_of,
    index_of_id, joined_in, ranked, scope_filtered, scored_with, signals_merged, with_sim,
    CandidateView, ScoreParts, ScoredView,
};
use crate::memory::model::RecallMode;
use crate::memory::recall::{
    bigrams, cjk, expanded, expansion, has_cjk, low_information, match_expression, quoted_terms, stopword, tokens, trivial, weight, with_run,
};
use crate::memory::scope::{scope_text, ScopeView};
use crate::order::{key_before, rank_of, sorted_order, sorting_is_a_permutation, Real};
use crate::text::{joined, trimmed, white};
use vstd::prelude::*;

verus! {

// ---------------------------------------------------------------------------
// Questions worth asking
// ---------------------------------------------------------------------------

/// A question of three characters or more, none of them Chinese, Japanese or Korean, is asked as soon
/// as one of its words is more than a filler, whatever its other words are.
pub proof fn one_telling_word_is_enough(query: Seq<char>, words: Seq<Seq<char>>, k: int)
    requires
        trimmed(query).len() >= 3,
        !has_cjk(trimmed(query)),
        0 <= k < words.len(),
        words[k] != "the"@ && words[k] != "a"@ && words[k] != "an"@ && words[k] != "is"@ && words[k] != "of"@ && words[k]
            != "to"@,
        words[k] != "and"@ && words[k] != "it"@ && words[k] != "in"@ && words[k] != "on"@ && words[k] != "for"@,
    ensures
        !trivial(query, words),
{
}

/// A question is not asked where it is blank, where it has fewer than three characters and none of
/// them is Chinese, Japanese or Korean, or where all its words are fillers.
pub proof fn fillers_are_not_asked(query: Seq<char>, words: Seq<Seq<char>>)
    requires
        !has_cjk(trimmed(query)),
    ensures
        trimmed(query).len() < 3 ==> trivial(query, words),
        (forall|k: int|
            0 <= k < words.len() ==> #[trigger] words[k] == "the"@ || words[k] == "a"@ || words[k] == "an"@ || words[k]
                == "is"@ || words[k] == "of"@ || words[k] == "to"@ || words[k] == "and"@ || words[k] == "it"@ || words[k]
                == "in"@ || words[k] == "on"@ || words[k] == "for"@) ==> trivial(query, words),
{
    if forall|k: int|
        0 <= k < words.len() ==> #[trigger] words[k] == "the"@ || words[k] == "a"@ || words[k] == "an"@ || words[k]
            == "is"@ || words[k] == "of"@ || words[k] == "to"@ || words[k] == "and"@ || words[k] == "it"@ || words[k]
            == "in"@ || words[k] == "on"@ || words[k] == "for"@ {
        assert(forall|k: int| 0 <= k < words.len() ==> stopword(#[trigger] words[k]));
    }
}

proof fn every_sign_weighs(s: Seq<char>, i: int)
    requires
        0 <= i < s.len(),
    ensures
        cjk(s[i]) && !white(s[i]) ==> weight(s) >= 2,
        !white(s[i]) ==> weight(s) >= 1,
    decreases s.len(),
{
    if i < s.len() - 1 {
        every_sign_weighs(s.drop_last(), i);
    }
}

proof fn two_signs_weigh_more(s: Seq<char>, i: int, j: int)
    requires
        0 <= i < j < s.len(),
    ensures
        cjk(s[i]) && cjk(s[j]) && !white(s[i]) && !white(s[j]) ==> weight(s) >= 4,
        cjk(s[i]) && !white(s[i]) && !white(s[j]) ==> weight(s) >= 3,
        cjk(s[j]) && !white(s[i]) && !white(s[j]) ==> weight(s) >= 3,
    decreases s.len(),
{
    let d = s.drop_last();
    if j < s.len() - 1 {
        two_signs_weigh_more(d, i, j);
    } else {
        every_sign_weighs(d, i);
    }
}

proof fn three_signs_weigh_more(s: Seq<char>, i: int, j: int, k: int)
    requires
        0 <= i < j < k < s.len(),
        !white(s[i]) && !white(s[j]) && !white(s[k]),
        cjk(s[i]) || cjk(s[j]) || cjk(s[k]),
    ensures
        weight(s) >= 4,
    decreases s.len(),
{
    let d = s.drop_last();
    if k < s.len() - 1 {
        three_signs_weigh_more(d, i, j, k);
    } else {
        every_sign_weighs(d, i);
        two_signs_weigh_more(d, i, j);
        no_sign_is_free(d, i, j);
    }
}

proof fn no_sign_is_free(s: Seq<char>, i: int, j: int)
    requires
        0 <= i < j < s.len(),
        !white(s[i]) && !white(s[j]),
    ensures
        weight(s) >= 2,
    decreases s.len(),
{
    let d = s.drop_last();
    if j < s.len() - 1 {
        no_sign_is_free(d, i, j);
    } else {
        every_sign_weighs(d, i);
    }
}

/// A question in which two Chinese, Japanese or Korean signs stand is asked, unless it is one of the
/// phrases that only answer; so is one with such a sign and two more signs that are not blank.
pub proof fn two_cjk_signs_are_enough(query: Seq<char>, words: Seq<Seq<char>>, i: int, j: int, k: int)
    requires
        ({
            let t = trimmed(query);
            &&& 0 <= i < j < t.len()
            &&& !white(t[i]) && !white(t[j])
            &&& (cjk(t[i]) && cjk(t[j])) || (j < k < t.len() && !white(t[k]) && (cjk(t[i]) || cjk(t[j]) || cjk(t[k])))
        }),
        trimmed(trimmed(query)) != "可以"@ && trimmed(trimmed(query)) != "謝謝"@ && trimmed(trimmed(query)) != "谢谢"@,
        trimmed(trimmed(query)) != "了解"@ && trimmed(trimmed(query)) != "收到"@,
        trimmed(trimmed(query)) != "好"@ && trimmed(trimmed(query)) != "嗯"@,
    ensures
        !trivial(query, words),
{
    let t = trimmed(query);
    if cjk(t[i]) && cjk(t[j]) {
        two_signs_weigh_more(t, i, j);
    } else {
        three_signs_weigh_more(t, i, j, k);
    }
    assert(weight(t) >= 4);
}

/// The phrases that only answer are never asked.
pub proof fn bare_answers_are_not_asked(query: Seq<char>, words: Seq<Seq<char>>)
    requires
        has_cjk(trimmed(query)),
        ({
            let t = trimmed(trimmed(query));
            t == "好"@ || t == "嗯"@ || t == "可以"@ || t == "謝謝"@ || t == "谢谢"@ || t == "了解"@ || t == "收到"@
        }),
    ensures
        trivial(query, words),
{
}

/// The signs counted as Chinese, Japanese or Korean: the ideographs and their extension, the
/// compatibility ideographs, both kana and the Hangul syllables.
pub proof fn cjk_blocks(c: char)
    ensures
        '一' <= c <= '龥' ==> cjk(c),
        'ぁ' <= c <= 'ヿ' ==> cjk(c),
        '가' <= c <= '힣' ==> cjk(c),
        (c as u32) < 0x3040 ==> !cjk(c),
        0xFB00 <= (c as u32) ==> !cjk(c),
{
}

/// The ideographs with their extension and their compatibility forms, both kana and the Hangul syllables are
/// signs; nothing else is.
pub proof fn signs_are_told_by_their_block(c: char)
    ensures
        0x4E00 <= (c as u32) <= 0x9FFF ==> cjk(c),
        0x3400 <= (c as u32) <= 0x4DBF ==> cjk(c),
        0xF900 <= (c as u32) <= 0xFAFF ==> cjk(c),
        0x3040 <= (c as u32) <= 0x30FF ==> cjk(c),
        0xAC00 <= (c as u32) <= 0xD7AF ==> cjk(c),
        (c as u32) < 0x3040 ==> !cjk(c),
        0x3100 <= (c as u32) < 0x3400 ==> !cjk(c),
        0x4DC0 <= (c as u32) < 0x4E00 ==> !cjk(c),
        0xA000 <= (c as u32) < 0xAC00 ==> !cjk(c),
        (c as u32) >= 0xFB00 ==> !cjk(c),
{
}

/// The signs of a text that are no white space.
pub open spec fn signs_in(s: Seq<char>) -> Seq<char> {
    s.filter(|c: char| !white(c) && cjk(c))
}

/// The other characters of a text that are no white space.
pub open spec fn letters_in(s: Seq<char>) -> Seq<char> {
    s.filter(|c: char| !white(c) && !cjk(c))
}

/// A sign weighs as much as two letters, and white space weighs nothing.
pub proof fn signs_weigh_two_letters(s: Seq<char>)
    ensures
        weight(s) == 2 * signs_in(s).len() + letters_in(s).len(),
    decreases s.len(),
{
    reveal(Seq::filter);
    if s.len() > 0 {
        signs_weigh_two_letters(s.drop_last());
    }
}

/// A question with signs in it is asked where its signs and letters weigh four or more, unless it only
/// answers.
pub proof fn heavy_questions_are_asked(query: Seq<char>, words: Seq<Seq<char>>)
    requires
        has_cjk(trimmed(query)),
        !low_information(trimmed(query)),
    ensures
        trivial(query, words) <==> 2 * signs_in(trimmed(query)).len() + letters_in(trimmed(query)).len() < 4,
{
    signs_weigh_two_letters(trimmed(query));
}

proof fn plain_text_is_copied(a: Seq<char>)
    requires
        forall|i: int| 0 <= i < a.len() ==> !cjk(#[trigger] a[i]),
    ensures
        expansion(a).out == a,
        expansion(a).run.len() == 0,
    decreases a.len(),
{
    if a.len() > 0 {
        let d = a.drop_last();
        assert forall|i: int| 0 <= i < d.len() implies !cjk(#[trigger] d[i]) by {
            assert(d[i] == a[i]);
        }
        plain_text_is_copied(d);
        assert(!cjk(a[a.len() - 1]));
        assert(d.push(a.last()) =~= a);
    } else {
        assert(expansion(a).out =~= a);
    }
}

proof fn runs_are_collected(a: Seq<char>, run: Seq<char>)
    requires
        forall|i: int| 0 <= i < a.len() ==> !cjk(#[trigger] a[i]),
        forall|i: int| 0 <= i < run.len() ==> cjk(#[trigger] run[i]),
    ensures
        expansion(a + run).out == a,
        expansion(a + run).run == run,
    decreases run.len(),
{
    if run.len() == 0 {
        plain_text_is_copied(a);
        assert(a + run =~= a);
        assert(expansion(a).run =~= run);
    } else {
        let d = run.drop_last();
        assert forall|i: int| 0 <= i < d.len() implies cjk(#[trigger] d[i]) by {
            assert(d[i] == run[i]);
        }
        runs_are_collected(a, d);
        assert((a + run).drop_last() =~= a + d);
        assert((a + run).last() == run.last());
        assert(cjk(run[run.len() - 1]));
        assert(d.push(run.last()) =~= run);
    }
}

proof fn text_goes_on(a: Seq<char>, run: Seq<char>, b: Seq<char>)
    requires
        forall|i: int| 0 <= i < a.len() ==> !cjk(#[trigger] a[i]),
        forall|i: int| 0 <= i < run.len() ==> cjk(#[trigger] run[i]),
        forall|i: int| 0 <= i < b.len() ==> !cjk(#[trigger] b[i]),
        b.len() > 0,
    ensures
        expansion(a + run + b).out == with_run(a, run) + b,
        expansion(a + run + b).run.len() == 0,
    decreases b.len(),
{
    let s = a + run + b;
    let d = b.drop_last();
    assert(s.drop_last() =~= a + run + d);
    assert(s.last() == b.last());
    assert(!cjk(b[b.len() - 1]));
    if d.len() == 0 {
        assert(a + run + d =~= a + run);
        runs_are_collected(a, run);
        assert(with_run(a, run).push(b.last()) =~= with_run(a, run) + b);
    } else {
        assert forall|i: int| 0 <= i < d.len() implies !cjk(#[trigger] d[i]) by {
            assert(d[i] == b[i]);
        }
        text_goes_on(a, run, d);
        assert((with_run(a, run) + d).push(b.last()) =~= with_run(a, run) + b);
    }
}

/// A run of Chinese, Japanese or Korean signs inside other text is written as its pairs of neighbours, or
/// as it is where it is a single sign, with blanks around it; the text around it stays.
pub proof fn runs_are_written_as_pairs(a: Seq<char>, run: Seq<char>, b: Seq<char>)
    requires
        forall|i: int| 0 <= i < a.len() ==> !cjk(#[trigger] a[i]),
        forall|i: int| 0 <= i < run.len() ==> cjk(#[trigger] run[i]),
        forall|i: int| 0 <= i < b.len() ==> !cjk(#[trigger] b[i]),
        run.len() > 0,
    ensures
        ({
            let before = if a.len() > 0 && a.last() != ' ' {
                a.push(' ')
            } else {
                a
            };
            &&& run.len() == 1 ==> expanded(a + run + b) == before + run + " "@ + b
            &&& run.len() == 2 ==> expanded(a + run + b) == before + run + " "@ + b
            &&& run.len() == 3 ==> expanded(a + run + b) == before + seq![run[0], run[1], ' ', run[1], run[2]] + " "@ + b
        }),
{
    if b.len() > 0 {
        text_goes_on(a, run, b);
    } else {
        assert(a + run + b =~= a + run);
        runs_are_collected(a, run);
        assert(with_run(a, run) + b =~= with_run(a, run));
    }
    assert(expanded(a + run + b) == with_run(a, run) + b);
    let g = bigrams(run);
    reveal_strlit(" ");
    if run.len() == 2 {
        assert(g =~= seq![run.subrange(0, 2)]);
        assert(run.subrange(0, 2) =~= run);
    } else if run.len() == 3 {
        assert(g =~= seq![run.subrange(0, 2), run.subrange(1, 3)]);
        assert(g.drop_last() =~= seq![run.subrange(0, 2)]);
        assert(joined(g.drop_last(), " "@) == run.subrange(0, 2));
        assert(joined(g, " "@) =~= seq![run[0], run[1], ' ', run[1], run[2]]);
    }
}

/// What is looked for in the index of words is each word in quotes, with OR between them; without
/// words nothing is.
pub proof fn every_word_is_looked_for(words: Seq<Seq<char>>, next: Seq<char>)
    ensures
        match_expression(Seq::<Seq<char>>::empty()) is None,
        match_expression(seq![next]) == Some("\""@ + next + "\""@),
        words.len() > 0 ==> match_expression(words.push(next)) == Some(
            match_expression(words)->0 + " OR "@ + ("\""@ + next + "\""@),
        ),
{
    let one = quoted_terms(seq![next]);
    assert(one =~= seq!["\""@ + next + "\""@]);
    assert(one.drop_first() =~= Seq::empty());
    assert(one.drop_last() =~= Seq::empty());
    let more = quoted_terms(words.push(next));
    assert(more =~= quoted_terms(words).push("\""@ + next + "\""@));
    assert(more.drop_last() =~= quoted_terms(words));
}

// ---------------------------------------------------------------------------
// Where is looked
// ---------------------------------------------------------------------------

/// Where each mode looks: by words unless memories are only walked through, among the recent ones
/// unless only words count, and by meaning where both are mixed.
pub proof fn modes_look_where_they_say(query: Seq<char>, top_k: nat, scope: Option<ScopeView>)
    ensures
        ({
            let s = search_for(query, RecallMode::Keyword, top_k, scope);
            s.expression == match_expression(tokens(expanded(query))) && !s.recent && !s.meaning
        }),
        ({
            let s = search_for(query, RecallMode::Tree, top_k, scope);
            s.expression is None && s.recent && !s.meaning
        }),
        ({
            let s = search_for(query, RecallMode::Hybrid, top_k, scope);
            s.expression == match_expression(tokens(expanded(query))) && s.recent && s.meaning
        }),
        forall|mode: RecallMode|
            (#[trigger] search_for(query, mode, top_k, scope)).scope == scope && search_for(
                query,
                mode,
                top_k,
                scope,
            ).whole_text == has_cjk(query),
{
}

/// Ten times as many memories are fetched as are asked for, and four times as many by meaning; never
/// fewer than fifty and twenty.
pub proof fn enough_is_fetched(top_k: nat)
    ensures
        source_limit(top_k) >= 50 && source_limit(top_k) >= 10 * top_k,
        source_limit(top_k) == 50 || source_limit(top_k) == 10 * top_k,
        meaning_limit(top_k) >= 20 && meaning_limit(top_k) >= 4 * top_k,
        meaning_limit(top_k) == 20 || meaning_limit(top_k) == 4 * top_k,
{
}

/// A search in a scope looks in the scope itself and in the global one, and nowhere else.
pub proof fn scopes_look_up_to_global(scope: ScopeView, text: Seq<char>)
    ensures
        admitted_scopes(scope).contains(text) <==> text == scope_text(scope) || text == "global"@,
{
    let a = admitted_scopes(scope);
    if text == scope_text(scope) {
        assert(a[0] == text);
    }
    if text == "global"@ {
        assert(a[a.len() - 1] == text);
    }
    if a.contains(text) {
        let k = a.index_of(text);
        assert(a[k] == text);
    }
}

/// The candidates of a scope are those that stand in it or in the global one, all of them, as they
/// were and in order; without a scope all candidates stay.
pub proof fn scopes_keep_their_candidates(s: Seq<CandidateView>, scope: ScopeView)
    ensures
        scope_filtered(s, Some(scope)) == s.filter(
            |c: CandidateView| c.scope == scope_text(scope) || c.scope == "global"@,
        ),
        scope_filtered(s, None) == s,
    decreases s.len(),
{
    reveal(Seq::filter);
    if s.len() > 0 {
        scopes_keep_their_candidates(s.drop_last(), scope);
        scopes_look_up_to_global(scope, s.last().scope);
    }
}

// ---------------------------------------------------------------------------
// What was found
// ---------------------------------------------------------------------------

/// Every source that found a memory is named once: those named before stay as they were, and each new
/// one is added.
pub proof fn every_source_is_named(own: Seq<Seq<char>>, more: Seq<Seq<char>>)
    ensures
        signals_merged(own, more).len() >= own.len(),
        signals_merged(own, more).take(own.len() as int) == own,
        forall|k: int| 0 <= k < more.len() ==> signals_merged(own, more).contains(#[trigger] more[k]),
        forall|k: int|
            own.len() <= k < signals_merged(own, more).len() ==> more.contains(#[trigger] signals_merged(own, more)[k]),
        own.no_duplicates() ==> signals_merged(own, more).no_duplicates(),
    decreases more.len(),
{
    let t = signals_merged(own, more);
    if more.len() > 0 {
        let d = more.drop_last();
        let w = signals_merged(own, d);
        every_source_is_named(own, d);
        assert(t.take(own.len() as int) =~= own) by {
            assert forall|i: int| 0 <= i < own.len() implies t[i] == own[i] by {
                assert(w.take(own.len() as int)[i] == w[i]);
            }
        }
        assert forall|k: int| 0 <= k < more.len() implies t.contains(#[trigger] more[k]) by {
            if k < d.len() {
                assert(d[k] == more[k]);
                let x = w.index_of(d[k]);
                assert(t[x] == more[k]);
            } else if w.contains(more.last()) {
                let x = w.index_of(more.last());
                assert(t[x] == more[k]);
            } else {
                assert(t[w.len() as int] == more[k]);
            }
        }
        assert forall|k: int| own.len() <= k < t.len() implies more.contains(#[trigger] t[k]) by {
            if k < w.len() {
                assert(t[k] == w[k]);
                let x = d.index_of(w[k]);
                assert(more[x] == t[k]);
            } else {
                assert(more[more.len() - 1] == t[k]);
            }
        }
    } else {
        assert(t.take(own.len() as int) =~= own);
    }
}

proof fn slot_of_id(s: Seq<CandidateView>, id: i64)
    ensures
        0 <= index_of_id(s, id) <= s.len(),
        index_of_id(s, id) < s.len() ==> s[index_of_id(s, id)].id == id,
        index_of_id(s, id) == s.len() ==> forall|k: int| 0 <= k < s.len() ==> (#[trigger] s[k]).id != id,
    decreases s.len(),
{
    if s.len() > 0 && s[0].id != id {
        let d = s.drop_first();
        slot_of_id(d, id);
        if index_of_id(d, id) == d.len() {
            assert forall|k: int| 0 <= k < s.len() implies (#[trigger] s[k]).id != id by {
                if k > 0 {
                    assert(d[k - 1] == s[k]);
                }
            }
        } else {
            assert(d[index_of_id(d, id)] == s[index_of_id(d, id) + 1]);
        }
    }
}

/// Some candidate of the list is of a memory, and names all the sources given.
pub open spec fn found_with(s: Seq<CandidateView>, id: i64, signals: Seq<Seq<char>>) -> bool {
    exists|k: int|
        0 <= k < s.len() && (#[trigger] s[k]).id == id && forall|j: int|
            0 <= j < signals.len() ==> s[k].source_signals.contains(#[trigger] signals[j])
}

proof fn joining_keeps(s: Seq<CandidateView>, c: CandidateView, sim: bool, id: i64, signals: Seq<Seq<char>>)
    requires
        found_with(s, id, signals),
    ensures
        found_with(joined_in(s, c, sim), id, signals),
{
    let k = choose|k: int|
        0 <= k < s.len() && (#[trigger] s[k]).id == id && forall|j: int|
            0 <= j < signals.len() ==> s[k].source_signals.contains(#[trigger] signals[j]);
    let t = joined_in(s, c, sim);
    slot_of_id(s, c.id);
    every_source_is_named(s[k].source_signals, c.source_signals);
    let own = s[k].source_signals;
    assert(t[k].id == id);
    assert forall|j: int| 0 <= j < signals.len() implies t[k].source_signals.contains(#[trigger] signals[j]) by {
        let x = own.index_of(signals[j]);
        assert(own[x] == signals[j]);
        let m = signals_merged(own, c.source_signals);
        assert(m.take(own.len() as int)[x] == m[x]);
        assert(t[k].source_signals[x] == signals[j]);
    }
}

proof fn joining_adds(s: Seq<CandidateView>, c: CandidateView, sim: bool)
    ensures
        found_with(joined_in(s, c, sim), c.id, c.source_signals),
{
    let t = joined_in(s, c, sim);
    let k = index_of_id(s, c.id);
    slot_of_id(s, c.id);
    if k < s.len() {
        every_source_is_named(s[k].source_signals, c.source_signals);
        assert(t[k].id == c.id);
    } else {
        assert(t[s.len() as int] == c);
        assert forall|j: int| 0 <= j < c.source_signals.len() implies t[s.len() as int].source_signals.contains(
            #[trigger] c.source_signals[j],
        ) by {}
    }
}

/// Nothing that a source found is lost where finds are put together: for each candidate of either
/// list there is one of the same memory, and it names the sources of both.
pub proof fn no_find_is_lost(s: Seq<CandidateView>, more: Seq<CandidateView>, sim: bool)
    ensures
        forall|k: int|
            0 <= k < s.len() ==> found_with(all_joined(s, more, sim), (#[trigger] s[k]).id, s[k].source_signals),
        forall|k: int|
            0 <= k < more.len() ==> found_with(all_joined(s, more, sim), (#[trigger] more[k]).id, more[k].source_signals),
    decreases more.len(),
{
    let t = all_joined(s, more, sim);
    if more.len() == 0 {
        assert forall|k: int| 0 <= k < s.len() implies found_with(t, (#[trigger] s[k]).id, s[k].source_signals) by {
            assert(t[k].id == s[k].id);
            assert forall|j: int| 0 <= j < s[k].source_signals.len() implies t[k].source_signals.contains(
                #[trigger] s[k].source_signals[j],
            ) by {}
        }
    } else {
        let d = more.drop_last();
        let w = all_joined(s, d, sim);
        no_find_is_lost(s, d, sim);
        assert forall|k: int| 0 <= k < s.len() implies found_with(t, (#[trigger] s[k]).id, s[k].source_signals) by {
            joining_keeps(w, more.last(), sim, s[k].id, s[k].source_signals);
        }
        assert forall|k: int| 0 <= k < more.len() implies found_with(t, (#[trigger] more[k]).id, more[k].source_signals) by {
            if k < d.len() {
                assert(d[k] == more[k]);
                joining_keeps(w, more.last(), sim, more[k].id, more[k].source_signals);
            } else {
                joining_adds(w, more.last(), sim);
            }
        }
    }
}

/// Where a find is put to what is known, its memory is there once more only if it was not known; how close
/// its meaning is counts where meanings are compared, and is left as it was where they are not.
pub proof fn finds_are_put_to_their_memory(s: Seq<CandidateView>, c: CandidateView, sim: bool)
    ensures
        ({
            let t = joined_in(s, c, sim);
            let known = exists|k: int| 0 <= k < s.len() && (#[trigger] s[k]).id == c.id;
            &&& known ==> t.len() == s.len() && exists|k: int|
                0 <= k < t.len() && s[k].id == c.id && (#[trigger] t[k]).id == c.id && t[k].vector_sim == (if sim {
                    c.vector_sim
                } else {
                    s[k].vector_sim
                }) && t[k].text == s[k].text && t[k].bm25 == s[k].bm25 && t[k].scope == s[k].scope
            &&& !known ==> t == s.push(c)
            &&& forall|k: int| 0 <= k < s.len() && (#[trigger] s[k]).id != c.id ==> t[k] == s[k]
        }),
{
    slot_of_id(s, c.id);
    let k = index_of_id(s, c.id);
    let t = joined_in(s, c, sim);
    if k < s.len() {
        assert(t[k].id == c.id);
    }
}

/// A candidate is of a memory that one of two lists holds, with the same text, scope and weight.
pub open spec fn of_either(c: CandidateView, s: Seq<CandidateView>, more: Seq<CandidateView>) -> bool {
    exists|k: int|
        0 <= k < s.len() + more.len() && ({
            let o = #[trigger] (s + more)[k];
            c.id == o.id && c.scope == o.scope && c.kind == o.kind && c.text == o.text && c.created_at == o.created_at
                && c.recall_count == o.recall_count && c.importance == o.importance && c.bm25 == o.bm25
        })
}

/// Putting finds together makes up nothing: each candidate is of one of the lists.
pub proof fn no_find_is_made_up(s: Seq<CandidateView>, more: Seq<CandidateView>, sim: bool)
    ensures
        forall|k: int| 0 <= k < all_joined(s, more, sim).len() ==> of_either(#[trigger] all_joined(s, more, sim)[k], s, more),
    decreases more.len(),
{
    let t = all_joined(s, more, sim);
    if more.len() == 0 {
        assert forall|k: int| 0 <= k < t.len() implies of_either(#[trigger] t[k], s, more) by {
            assert((s + more)[k] == s[k]);
        }
    } else {
        let d = more.drop_last();
        let w = all_joined(s, d, sim);
        no_find_is_made_up(s, d, sim);
        slot_of_id(w, more.last().id);
        assert forall|k: int| 0 <= k < t.len() implies of_either(#[trigger] t[k], s, more) by {
            if k < w.len() {
                assert(of_either(w[k], s, d));
                let x = choose|x: int|
                    0 <= x < s.len() + d.len() && ({
                        let o = #[trigger] (s + d)[x];
                        w[k].id == o.id && w[k].scope == o.scope && w[k].kind == o.kind && w[k].text == o.text
                            && w[k].created_at == o.created_at && w[k].recall_count == o.recall_count && w[k].importance
                            == o.importance && w[k].bm25 == o.bm25
                    });
                assert((s + more)[x] == (s + d)[x]);
            } else {
                assert((s + more)[s.len() + more.len() - 1] == more.last());
            }
        }
    }
}

/// By words alone what the words found is answered, by walking what is recent, and mixed all of both.
pub proof fn modes_answer_what_they_found(keyword: Seq<CandidateView>, recent: Seq<CandidateView>)
    ensures
        combined(RecallMode::Keyword, keyword, recent) == keyword,
        combined(RecallMode::Tree, keyword, recent) == recent,
        forall|k: int|
            0 <= k < keyword.len() ==> found_with(
                combined(RecallMode::Hybrid, keyword, recent),
                (#[trigger] keyword[k]).id,
                keyword[k].source_signals,
            ),
        forall|k: int|
            0 <= k < recent.len() ==> found_with(
                combined(RecallMode::Hybrid, keyword, recent),
                (#[trigger] recent[k]).id,
                recent[k].source_signals,
            ),
{
    no_find_is_lost(keyword, recent, false);
}

/// Without a scope, a mixed search answers with all that was found: by words, among the recent and by
/// meaning.
pub proof fn mixed_searches_gather_all(
    search: SearchView,
    keyword: Seq<CandidateView>,
    recent: Seq<CandidateView>,
    found: Seq<CandidateView>,
)
    requires
        search.scope is None,
        search.meaning,
    ensures
        ({
            let g = gathered(search, RecallMode::Hybrid, keyword, recent, Some(found));
            &&& forall|k: int| 0 <= k < keyword.len() ==> found_with(g, (#[trigger] keyword[k]).id, keyword[k].source_signals)
            &&& forall|k: int| 0 <= k < recent.len() ==> found_with(g, (#[trigger] recent[k]).id, recent[k].source_signals)
            &&& forall|k: int| 0 <= k < found.len() ==> found_with(g, (#[trigger] found[k]).id, found[k].source_signals)
        }),
{
    let m = all_joined(keyword, recent, false);
    let g = gathered(search, RecallMode::Hybrid, keyword, recent, Some(found));
    no_find_is_lost(keyword, recent, false);
    no_find_is_lost(m, found, true);
    assert forall|id: i64, signals: Seq<Seq<char>>| found_with(m, id, signals) implies #[trigger] found_with(g, id, signals) by {
        let k = choose|k: int|
            0 <= k < m.len() && (#[trigger] m[k]).id == id && forall|j: int|
                0 <= j < signals.len() ==> m[k].source_signals.contains(#[trigger] signals[j]);
        assert(found_with(g, m[k].id, m[k].source_signals));
        let x = choose|x: int|
            0 <= x < g.len() && (#[trigger] g[x]).id == id && forall|j: int|
                0 <= j < m[k].source_signals.len() ==> g[x].source_signals.contains(#[trigger] m[k].source_signals[j]);
        assert forall|j: int| 0 <= j < signals.len() implies g[x].source_signals.contains(#[trigger] signals[j]) by {
            let y = m[k].source_signals.index_of(signals[j]);
            assert(m[k].source_signals[y] == signals[j]);
        }
    }
}

/// What was found by meaning counts only where meanings are compared.
pub proof fn meanings_count_where_they_are_compared(
    search: SearchView,
    mode: RecallMode,
    keyword: Seq<CandidateView>,
    recent: Seq<CandidateView>,
    found: Seq<CandidateView>,
)
    requires
        !search.meaning,
    ensures
        gathered(search, mode, keyword, recent, Some(found)) == gathered(search, mode, keyword, recent, None),
{
}

/// A memory found by its meaning says so, and how close it is, and is otherwise as it was.
pub proof fn closeness_is_noted(c: CandidateView, sim: Real)
    ensures
        with_sim(c, sim).vector_sim == Some(sim),
        with_sim(c, sim).source_signals.contains("vector"@),
        with_sim(c, sim).source_signals.drop_last() == c.source_signals,
        with_sim(c, sim) == (CandidateView {
            vector_sim: with_sim(c, sim).vector_sim,
            source_signals: with_sim(c, sim).source_signals,
            ..c
        }),
{
    let s = with_sim(c, sim).source_signals;
    assert(s[s.len() - 1] == "vector"@);
    assert(s.drop_last() =~= c.source_signals);
}

/// The closest candidates are taken: one is left out only where as many as asked for were taken, none
/// of them less close. They come the closest first.
pub proof fn the_closest_are_taken(cands: Seq<CandidateView>, sims: Seq<Real>, limit: nat, i: int)
    requires
        cands.len() == sims.len(),
        0 <= i < cands.len(),
    ensures
        ({
            let t = closest(cands, sims, limit);
            &&& t.contains(with_sim(cands[i], sims[i])) || (t.len() == limit && forall|k: int|
                0 <= k < t.len() ==> rank_of((#[trigger] t[k]).vector_sim->0) >= rank_of(sims[i]))
            &&& forall|a: int, b: int|
                0 <= a < b < t.len() ==> rank_of((#[trigger] t[a]).vector_sim->0) >= rank_of(
                    (#[trigger] t[b]).vector_sim->0,
                )
            &&& t.len() <= limit
        }),
{
    let all = Seq::new(cands.len(), |j: int| with_sim(cands[j], sims[j]));
    let keys = all.map_values(|c: CandidateView| descending_key(c.vector_sim));
    let n = keys.len() as int;
    let at = sorted_order(keys, n);
    let t = closest(cands, sims, limit);
    sorting_is_a_permutation(keys, n);
    assert forall|k: int| 0 <= k < t.len() implies 0 <= #[trigger] at[k] < n && t[k] == all[at[k]] && all[at[k]]
        == with_sim(cands[at[k]], sims[at[k]]) by {
        assert(at.contains(at[k]));
    }
    assert forall|a: int, b: int| 0 <= a < b < n implies rank_of(sims[#[trigger] at[a]]) >= rank_of(
        sims[#[trigger] at[b]],
    ) by {
        assert(at.contains(at[a]));
        assert(at.contains(at[b]));
        assert(!key_before(keys[at[b]], keys[at[a]]));
        assert(keys[at[a]] == descending_key(Some(sims[at[a]])));
        assert(keys[at[b]] == descending_key(Some(sims[at[b]])));
    }
    assert(at.contains(i));
    let p = at.index_of(i);
    if p < t.len() {
        assert(t[p] == with_sim(cands[i], sims[i]));
    } else {
        assert forall|k: int| 0 <= k < t.len() implies rank_of((#[trigger] t[k]).vector_sim->0) >= rank_of(sims[i]) by {
            assert(0 <= at[k] < n);
            assert(rank_of(sims[at[k]]) >= rank_of(sims[at[p]]));
        }
    }
    assert forall|a: int, b: int| 0 <= a < b < t.len() implies rank_of((#[trigger] t[a]).vector_sim->0) >= rank_of(
        (#[trigger] t[b]).vector_sim->0,
    ) by {
        assert(0 <= at[a] < n);
        assert(0 <= at[b] < n);
    }
}

/// The best candidates are answered: one is left out only where as many as asked for are answered,
/// none of them worse; of equally good ones the earlier comes first.
pub proof fn the_best_are_answered(cands: Seq<CandidateView>, parts: Seq<ScoreParts>, now: i64, top_k: nat, i: int)
    requires
        cands.len() == parts.len(),
        0 <= i < cands.len(),
    ensures
        ({
            let t = ranked(cands, parts, now, top_k);
            t.contains(scored_with(cands[i], parts[i], now)) || (t.len() == top_k && forall|k: int|
                0 <= k < t.len() ==> rank_of((#[trigger] t[k]).score) >= rank_of(parts[i].score))
        }),
{
    let all = Seq::new(cands.len(), |j: int| scored_with(cands[j], parts[j], now));
    let keys = all.map_values(|s: ScoredView| descending_key(Some(s.score)));
    let n = keys.len() as int;
    let at = sorted_order(keys, n);
    let t = ranked(cands, parts, now, top_k);
    sorting_is_a_permutation(keys, n);
    assert forall|k: int| 0 <= k < t.len() implies 0 <= #[trigger] at[k] < n && t[k] == all[at[k]] by {
        assert(at.contains(at[k]));
    }
    assert(at.contains(i));
    let p = at.index_of(i);
    if p < t.len() {
        assert(t[p] == scored_with(cands[i], parts[i], now));
    } else {
        assert forall|k: int| 0 <= k < t.len() implies rank_of((#[trigger] t[k]).score) >= rank_of(parts[i].score) by {
            assert(0 <= at[k] < n);
            assert(!key_before(keys[at[p]], keys[at[k]]));
            assert(keys[at[k]] == descending_key(Some(all[at[k]].score)));
            assert(keys[at[p]] == descending_key(Some(all[at[p]].score)));
        }
    }
}

/// A hit is the memory as it was found, with the parts of its score and its age.
pub proof fn hits_tell_what_was_found(c: CandidateView, p: ScoreParts, now: i64)
    requires
        0 <= now - c.created_at <= i64::MAX,
    ensures
        ({
            let h = scored_with(c, p, now);
            &&& h.id == c.id && h.scope == c.scope && h.kind == c.kind && h.text == c.text
            &&& h.score == p.score && h.explanation.lexical == p.lexical && h.explanation.semantic == p.semantic
            &&& h.explanation.relevance == p.relevance && h.explanation.decay == p.decay && h.explanation.recall_bonus
                == p.recall_bonus
            &&& h.explanation.importance == c.importance && h.explanation.recall_count == c.recall_count
            &&& h.explanation.source_signals == c.source_signals
            &&& h.explanation.age_seconds == now - c.created_at
        }),
{
}

/// No memory is younger than new.
pub proof fn ages_are_not_negative(created_at: i64, now: i64)
    ensures
        age_of(created_at, now) >= 0,
        now >= created_at ==> created_at + age_of(created_at, now) == now,
        now < created_at ==> age_of(created_at, now) == 0,
{
}

/// The confidence in an answer is the relevance of its first hit, held between zero and one; without a
/// hit it is zero.
pub proof fn confidence_is_that_of_the_first_hit(s: Seq<ScoredView>)
    ensures
        s.len() == 0 ==> confidence_in(s).bits == 0,
        s.len() > 0 && 0 <= rank_of(s[0].explanation.relevance) <= rank_of(Real { bits: 0x3FF0_0000_0000_0000 })
            ==> confidence_in(s) == s[0].explanation.relevance,
        0 <= rank_of(confidence_in(s)) <= rank_of(Real { bits: 0x3FF0_0000_0000_0000 }),
        s.len() > 0 && rank_of(s[0].explanation.relevance) > rank_of(Real { bits: 0x3FF0_0000_0000_0000 })
            ==> confidence_in(s).bits == 0x3FF0_0000_0000_0000,
{
}

/// The extremes of a list are values of it, and no value of it lies outside them; a list without values
/// has none.
pub proof fn extremes_bound_all(v: Seq<Option<Real>>)
    ensures
        extremes_of(v) is None <==> forall|k: int| 0 <= k < v.len() ==> #[trigger] v[k] is None,
        extremes_of(v) is Some ==> v.contains(Some((extremes_of(v)->Some_0).0)) && v.contains(Some((extremes_of(v)->Some_0).1)),
        forall|k: int|
            0 <= k < v.len() && #[trigger] v[k] is Some ==> extremes_of(v) is Some && rank_of((extremes_of(v)->Some_0).0) <= rank_of(
                v[k]->0,
            ) <= rank_of((extremes_of(v)->Some_0).1),
    decreases v.len(),
{
    if v.len() > 0 {
        let d = v.drop_last();
        extremes_bound_all(d);
        assert(v[v.len() - 1] == v.last());
        if extremes_of(d) is Some {
            let (lo, hi) = extremes_of(d)->0;
            assert(v[d.index_of(Some(lo))] == Some(lo));
            assert(v[d.index_of(Some(hi))] == Some(hi));
        }
        assert forall|k: int| 0 <= k < v.len() && #[trigger] v[k] is Some implies extremes_of(v) is Some && rank_of(
            (extremes_of(v)->Some_0).0,
        ) <= rank_of(v[k]->0) <= rank_of((extremes_of(v)->Some_0).1) by {
            if k < d.len() {
                assert(d[k] == v[k]);
            }
        }
        if forall|k: int| 0 <= k < v.len() ==> #[trigger] v[k] is None {
            assert forall|k: int| 0 <= k < d.len() implies #[trigger] d[k] is None by {
                assert(v[k] is None);
            }
        }
        if extremes_of(v) is None {
            assert forall|k: int| 0 <= k < v.len() implies #[trigger] v[k] is None by {
                if k < d.len() {
                    assert(d[k] is None);
                }
            }
        }
    }
}

} // verus!
