//! Reading a question, and combining and ordering what may answer it.
use crate::text::{
    ascii_alpha, ascii_digit, ascii_lower, ascii_lowered, chars_of, is_white, join, joined, lowercase, lowercase_of, occurs_at,
    opt_text, push_text, same, str_trim, string_of, texts, trimmed, white,
};
use vstd::prelude::*;
use vstd::utf8::is_ascii_chars;

verus! {

// ---------------------------------------------------------------------------
// Chinese, Japanese and Korean characters
// ---------------------------------------------------------------------------

/// A character of a script that is written without spaces between words.
pub open spec fn cjk(c: char) -> bool {
    let n = c as u32;
    ||| 0x3400 <= n <= 0x4DBF
    ||| 0x4E00 <= n <= 0x9FFF
    ||| 0xF900 <= n <= 0xFAFF
    ||| 0x3040 <= n <= 0x30FF
    ||| 0xAC00 <= n <= 0xD7AF
}

/// Whether a character belongs to a script that is written without spaces between words.
pub fn is_cjk_char(ch: char) -> (r: bool)
    ensures
        r == cjk(ch),
{
    let n: u32 = ch as u32;
    (0x3400 <= n && n <= 0x4DBF) || (0x4E00 <= n && n <= 0x9FFF) || (0xF900 <= n && n <= 0xFAFF) || (
    0x3040 <= n && n <= 0x30FF) || (0xAC00 <= n && n <= 0xD7AF)
}

/// Some character of the text belongs to such a script.
pub open spec fn has_cjk(s: Seq<char>) -> bool {
    exists|i: int| 0 <= i < s.len() && cjk(#[trigger] s[i])
}

/// Whether some character of the text belongs to such a script.
pub fn contains_cjk(query: &str) -> (r: bool)
    ensures
        r == has_cjk(query@),
{
    let v = chars_of(query);
    let mut i: usize = 0;
    while i < v.len()
        invariant
            i <= v.len(),
            v@ == query@,
            forall|k: int| 0 <= k < i ==> !cjk(#[trigger] v@[k]),
        decreases v.len() - i,
    {
        if is_cjk_char(v[i]) {
            return true;
        }
        i = i + 1;
    }
    false
}

/// A reply that says nothing to look for.
pub open spec fn low_information(s: Seq<char>) -> bool {
    let t = trimmed(s);
    ||| t == "好"@
    ||| t == "嗯"@
    ||| t == "可以"@
    ||| t == "謝謝"@
    ||| t == "谢谢"@
    ||| t == "了解"@
    ||| t == "收到"@
}

/// Whether the text is a reply that says nothing to look for.
pub fn is_low_information_cjk(query: &str) -> (r: bool)
    ensures
        r == low_information(query@),
{
    let t = str_trim(query);
    same(t.as_str(), "好") || same(t.as_str(), "嗯") || same(t.as_str(), "可以") || same(
        t.as_str(),
        "謝謝",
    ) || same(t.as_str(), "谢谢") || same(t.as_str(), "了解") || same(t.as_str(), "收到")
}

/// How much a character counts.
pub open spec fn char_weight(c: char) -> nat {
    if white(c) {
        0
    } else if cjk(c) {
        2
    } else {
        1
    }
}

/// The weight of a text: white space counts nothing, and a character without spaces around it
/// counts twice.
pub open spec fn weight(s: Seq<char>) -> nat
    decreases s.len(),
{
    if s.len() == 0 {
        0
    } else {
        weight(s.drop_last()) + char_weight(s.last())
    }
}

/// The weight of a text. A text so long that its weight fits no machine integer counts as the
/// largest one.
pub fn cjk_weighted_len(query: &str) -> (r: usize)
    ensures
        r == (if weight(query@) <= usize::MAX {
            weight(query@)
        } else {
            usize::MAX as nat
        }),
{
    let v = chars_of(query);
    let mut n: u128 = 0;
    let mut i: usize = 0;
    while i < v.len()
        invariant
            i <= v.len(),
            v@ == query@,
            n == weight(v@.take(i as int)),
            n <= 2 * i,
        decreases v.len() - i,
    {
        assert(v@.take(i + 1).drop_last() =~= v@.take(i as int));
        if !is_white(v[i]) {
            n = n + if is_cjk_char(v[i]) {
                2
            } else {
                1
            };
        }
        i = i + 1;
    }
    assert(v@.take(i as int) =~= v@);
    if n <= usize::MAX as u128 {
        n as usize
    } else {
        usize::MAX
    }
}

// ---------------------------------------------------------------------------
// Words
// ---------------------------------------------------------------------------

/// The letters and numbers of Unicode beyond ASCII.
pub uninterp spec fn unicode_alphanumeric(c: char) -> bool;

/// A letter or a digit of ASCII.
pub open spec fn ascii_alphanumeric(c: char) -> bool {
    ascii_alpha(c) || ascii_digit(c)
}

/// The letters and numbers of Unicode.
pub open spec fn alphanumeric(c: char) -> bool {
    if (c as u32) < 128 {
        ascii_alphanumeric(c)
    } else {
        unicode_alphanumeric(c)
    }
}

/// Calls `char::is_alphanumeric`, whose result depends on the character alone. Of the ASCII
/// characters it holds for the letters and digits only.
#[verifier::external_body]
fn is_alphanumeric(c: char) -> (r: bool)
    ensures
        r == (if (c as u32) < 128 {
            ascii_alphanumeric(c)
        } else {
            unicode_alphanumeric(c)
        }),
{
    c.is_alphanumeric()
}

/// The runs of letters and numbers read so far, and the one being read.
pub struct Runs {
    pub done: Seq<Seq<char>>,
    pub open: Seq<char>,
}

/// What has been read after all characters of the text.
pub open spec fn runs_read(s: Seq<char>) -> Runs
    decreases s.len(),
{
    if s.len() == 0 {
        Runs { done: Seq::empty(), open: Seq::empty() }
    } else {
        let before = runs_read(s.drop_last());
        if alphanumeric(s.last()) {
            Runs { done: before.done, open: before.open.push(s.last()) }
        } else if before.open.len() > 0 {
            Runs { done: before.done.push(lowercase_of(before.open)), open: Seq::empty() }
        } else {
            before
        }
    }
}

/// The runs of letters and numbers of a text, in lower case.
pub open spec fn tokens(s: Seq<char>) -> Seq<Seq<char>> {
    let w = runs_read(s);
    if w.open.len() > 0 {
        w.done.push(lowercase_of(w.open))
    } else {
        w.done
    }
}

/// The runs of letters and digits of an ASCII text, in lower case.
pub open spec fn ascii_tokens(s: Seq<char>) -> Seq<Seq<char>>
    decreases s.len(),
{
    if s.len() == 0 {
        Seq::empty()
    } else {
        let before = ascii_tokens(s.drop_last());
        let c = ascii_lower(s.last());
        if !ascii_alphanumeric(s.last()) {
            before
        } else if s.len() >= 2 && ascii_alphanumeric(s[s.len() - 2]) {
            before.drop_last().push(before.last().push(c))
        } else {
            before.push(seq![c])
        }
    }
}

/// The runs of letters and numbers of a text, in lower case.
pub fn tokenize(query: &str) -> (r: Vec<String>)
    ensures
        texts(r@) == tokens(query@),
        is_ascii_chars(query@) ==> texts(r@) == ascii_tokens(query@),
{
    proof {
        if is_ascii_chars(query@) {
            ascii_text_has_ascii_tokens(query@);
        }
    }
    let s = chars_of(query);
    let mut r: Vec<String> = Vec::new();
    let mut run = String::new();
    let mut empty = true;
    let mut i: usize = 0;
    proof {
        assert(texts(r@) =~= runs_read(s@.take(0)).done);
        assert(run@ =~= runs_read(s@.take(0)).open);
    }
    while i < s.len()
        invariant
            i <= s.len(),
            s@ == query@,
            texts(r@) == runs_read(s@.take(i as int)).done,
            run@ == runs_read(s@.take(i as int)).open,
            empty == (run@.len() == 0),
        decreases s.len() - i,
    {
        let c = s[i];
        assert(s@.take(i + 1).drop_last() =~= s@.take(i as int));
        if is_alphanumeric(c) {
            run.push(c);
            empty = false;
        } else if !empty {
            let word = lowercase(run.as_str());
            push_text(&mut r, word.as_str());
            run = String::new();
            empty = true;
        }
        i = i + 1;
    }
    assert(s@.take(i as int) =~= s@);
    if !empty {
        let word = lowercase(run.as_str());
        push_text(&mut r, word.as_str());
    }
    r
}

proof fn ascii_parts(a: Seq<char>, b: Seq<char>)
    ensures
        is_ascii_chars(a + b) == (is_ascii_chars(a) && is_ascii_chars(b)),
{
    let s = a + b;
    if is_ascii_chars(s) {
        assert forall|i: int| 0 <= i < a.len() implies '\0' <= #[trigger] a[i] <= '\u{7f}' by {
            assert(s[i] == a[i]);
        }
        assert forall|i: int| 0 <= i < b.len() implies '\0' <= #[trigger] b[i] <= '\u{7f}' by {
            assert(s[a.len() + i] == b[i]);
        }
    }
}

/// A run is open behind a letter or number only; it ends the text.
proof fn open_run(s: Seq<char>)
    ensures
        runs_read(s).open.len() <= s.len(),
        runs_read(s).open == s.skip(s.len() - runs_read(s).open.len()),
        runs_read(s).open.len() > 0 <==> s.len() > 0 && alphanumeric(s.last()),
    decreases s.len(),
{
    if s.len() > 0 {
        open_run(s.drop_last());
    }
    assert(runs_read(s).open =~= s.skip(s.len() - runs_read(s).open.len()));
}

/// The runs of an ASCII text are those of its ASCII letters and digits, in lower case.
pub proof fn ascii_text_has_ascii_tokens(s: Seq<char>)
    requires
        is_ascii_chars(s),
    ensures
        tokens(s) == ascii_tokens(s),
    decreases s.len(),
{
    if s.len() > 0 {
        let d = s.drop_last();
        let w = runs_read(d);
        assert(d + seq![s.last()] =~= s);
        ascii_parts(d, seq![s.last()]);
        ascii_text_has_ascii_tokens(d);
        open_run(d);
        assert(d.take(d.len() - w.open.len()) + w.open =~= d);
        ascii_parts(d.take(d.len() - w.open.len()), w.open);
        let c = s.last();
        assert('\0' <= s[s.len() - 1] <= '\u{7f}');
        if d.len() > 0 {
            assert(d.last() == s[s.len() - 2]);
            assert('\0' <= s[s.len() - 2] <= '\u{7f}');
        }
        if alphanumeric(c) {
            let run = w.open.push(c);
            assert(w.open + seq![c] =~= run);
            ascii_parts(w.open, seq![c]);
            assert(ascii_lowered(run) =~= ascii_lowered(w.open).push(ascii_lower(c)));
            if w.open.len() > 0 {
                assert(tokens(d).drop_last() =~= w.done);
            } else {
                assert(ascii_lowered(run) =~= seq![ascii_lower(c)]);
            }
        }
    }
}

// ---------------------------------------------------------------------------
// What holds of words
// ---------------------------------------------------------------------------

/// Words do not reach over a character that is neither a letter nor a number: what stands before
/// it and what stands behind it are read apart.
pub proof fn words_end_at_gaps(a: Seq<char>, c: char, b: Seq<char>)
    requires
        !alphanumeric(c),
    ensures
        tokens(a + seq![c] + b) == tokens(a) + tokens(b),
{
    after_gap(a, c, b);
    let w = runs_read(b);
    if w.open.len() > 0 {
        assert((tokens(a) + w.done).push(lowercase_of(w.open)) =~= tokens(a) + tokens(b));
    }
}

proof fn after_gap(a: Seq<char>, c: char, b: Seq<char>)
    requires
        !alphanumeric(c),
    ensures
        runs_read(a + seq![c] + b).done == tokens(a) + runs_read(b).done,
        runs_read(a + seq![c] + b).open == runs_read(b).open,
    decreases b.len(),
{
    let s = a + seq![c] + b;
    if b.len() == 0 {
        assert(s.drop_last() =~= a);
        assert(s.last() == c);
        assert(tokens(a) + runs_read(b).done =~= tokens(a));
        assert(runs_read(s).open =~= Seq::<char>::empty());
    } else {
        let d = b.drop_last();
        after_gap(a, c, d);
        assert(s.drop_last() =~= a + seq![c] + d);
        assert(s.last() == b.last());
        let w = runs_read(d);
        assert((tokens(a) + w.done).push(lowercase_of(w.open)) =~= tokens(a) + w.done.push(lowercase_of(w.open)));
    }
}

/// Letters and numbers with nothing between them are one word.
pub proof fn unbroken_runs_are_words(s: Seq<char>)
    requires
        s.len() > 0,
        forall|i: int| 0 <= i < s.len() ==> alphanumeric(#[trigger] s[i]),
    ensures
        tokens(s) == seq![lowercase_of(s)],
{
    unbroken(s);
    assert(tokens(s) =~= seq![lowercase_of(s)]);
}

proof fn unbroken(s: Seq<char>)
    requires
        forall|i: int| 0 <= i < s.len() ==> alphanumeric(#[trigger] s[i]),
    ensures
        runs_read(s).done.len() == 0,
        runs_read(s).open == s,
    decreases s.len(),
{
    if s.len() > 0 {
        let d = s.drop_last();
        assert forall|i: int| 0 <= i < d.len() implies alphanumeric(#[trigger] d[i]) by {
            assert(d[i] == s[i]);
        }
        unbroken(d);
        assert(alphanumeric(s[s.len() - 1]));
        assert(d.push(s.last()) =~= s);
    } else {
        assert(runs_read(s).open =~= s);
    }
}

/// Runs of letters and numbers, none of them empty.
pub open spec fn all_runs(parts: Seq<Seq<char>>) -> bool {
    forall|k: int|
        0 <= k < parts.len() ==> (#[trigger] parts[k]).len() > 0 && forall|i: int|
            0 <= i < parts[k].len() ==> alphanumeric(#[trigger] parts[k][i])
}

/// The words of runs with spaces between them are these runs in lower case.
proof fn joined_runs(parts: Seq<Seq<char>>)
    requires
        all_runs(parts),
    ensures
        tokens(joined(parts, " "@)) == parts.map_values(|t: Seq<char>| lowercase_of(t)),
    decreases parts.len(),
{
    let f = |t: Seq<char>| lowercase_of(t);
    reveal_strlit(" ");
    if parts.len() == 0 {
        assert(tokens(joined(parts, " "@)) =~= parts.map_values(f));
    } else {
        let d = parts.drop_last();
        let t = parts.last();
        assert(all_runs(d)) by {
            assert forall|k: int| 0 <= k < d.len() implies (#[trigger] d[k]).len() > 0 && forall|i: int|
                0 <= i < d[k].len() ==> alphanumeric(#[trigger] d[k][i]) by {
                assert(d[k] == parts[k]);
            }
        }
        joined_runs(d);
        assert(parts[parts.len() - 1].len() > 0);
        unbroken_runs_are_words(t);
        if parts.len() > 1 {
            assert(" "@ =~= seq![' ']);
            words_end_at_gaps(joined(d, " "@), ' ', t);
        }
        assert(tokens(joined(parts, " "@)) =~= parts.map_values(f));
    }
}

/// The characters of an ASCII text that are letters or digits, in order and in lower case.
pub open spec fn ascii_letters(s: Seq<char>) -> Seq<char>
    decreases s.len(),
{
    if s.len() == 0 {
        Seq::empty()
    } else if ascii_alphanumeric(s.last()) {
        ascii_letters(s.drop_last()).push(ascii_lower(s.last()))
    } else {
        ascii_letters(s.drop_last())
    }
}

/// Every word of an ASCII text is made of lower-case letters and digits and is not empty, and
/// the words one after another are the letters and digits of the text in lower case.
pub proof fn ascii_words_hold_every_letter(s: Seq<char>)
    requires
        is_ascii_chars(s),
    ensures
        forall|k: int| 0 <= k < tokens(s).len() ==> (#[trigger] tokens(s)[k]).len() > 0,
        forall|k: int, i: int|
            0 <= k < tokens(s).len() && 0 <= i < tokens(s)[k].len() ==> {
                &&& ascii_alphanumeric(#[trigger] tokens(s)[k][i])
                &&& ascii_lower(tokens(s)[k][i]) == tokens(s)[k][i]
            },
        joined(tokens(s), Seq::empty()) == ascii_letters(s),
{
    ascii_text_has_ascii_tokens(s);
    ascii_words(s);
}

proof fn ascii_words(s: Seq<char>)
    ensures
        forall|k: int| 0 <= k < ascii_tokens(s).len() ==> (#[trigger] ascii_tokens(s)[k]).len() > 0,
        forall|k: int, i: int|
            0 <= k < ascii_tokens(s).len() && 0 <= i < ascii_tokens(s)[k].len() ==> {
                &&& ascii_alphanumeric(#[trigger] ascii_tokens(s)[k][i])
                &&& ascii_lower(ascii_tokens(s)[k][i]) == ascii_tokens(s)[k][i]
            },
        joined(ascii_tokens(s), Seq::empty()) == ascii_letters(s),
        s.len() > 0 && ascii_alphanumeric(s.last()) ==> ascii_tokens(s).len() > 0,
    decreases s.len(),
{
    if s.len() > 0 {
        let d = s.drop_last();
        let w = ascii_tokens(d);
        let t = ascii_tokens(s);
        let c = ascii_lower(s.last());
        let none = Seq::<char>::empty();
        ascii_words(d);
        if ascii_alphanumeric(s.last()) {
            if s.len() >= 2 && ascii_alphanumeric(s[s.len() - 2]) {
                assert(d.last() == s[s.len() - 2]);
                let n = w.len() - 1;
                assert(t.drop_last() =~= w.drop_last());
                assert(joined(t, none) =~= joined(w, none).push(c));
                assert forall|k: int, i: int| 0 <= k < t.len() && 0 <= i < t[k].len() implies {
                    &&& ascii_alphanumeric(#[trigger] t[k][i])
                    &&& ascii_lower(t[k][i]) == t[k][i]
                } by {
                    if k < n {
                        assert(t[k] == w[k]);
                        assert(ascii_alphanumeric(w[k][i]));
                    } else if i < w[n].len() {
                        assert(t[k][i] == w[n][i]);
                    }
                }
            } else {
                assert(t.drop_last() =~= w);
                assert(joined(t, none) =~= joined(w, none).push(c));
                assert forall|k: int, i: int| 0 <= k < t.len() && 0 <= i < t[k].len() implies {
                    &&& ascii_alphanumeric(#[trigger] t[k][i])
                    &&& ascii_lower(t[k][i]) == t[k][i]
                } by {
                    if k < w.len() {
                        assert(t[k] == w[k]);
                        assert(ascii_alphanumeric(w[k][i]));
                    }
                }
            }
        }
    }
}

/// The words of an ASCII text, written with spaces between them, are read as the same words.
pub proof fn ascii_words_are_read_again(s: Seq<char>)
    requires
        is_ascii_chars(s),
    ensures
        tokens(joined(tokens(s), " "@)) == tokens(s),
{
    let t = tokens(s);
    ascii_words_hold_every_letter(s);
    assert forall|k: int| 0 <= k < t.len() implies (#[trigger] t[k]).len() > 0 && (forall|i: int|
        0 <= i < t[k].len() ==> alphanumeric(#[trigger] t[k][i])) by {
        assert forall|i: int| 0 <= i < t[k].len() implies alphanumeric(#[trigger] t[k][i]) by {
            assert(ascii_alphanumeric(t[k][i]));
        }
    }
    joined_runs(t);
    let low = t.map_values(|x: Seq<char>| lowercase_of(x));
    assert forall|k: int| 0 <= k < t.len() implies low[k] == t[k] by {
        assert forall|i: int| 0 <= i < t[k].len() implies '\0' <= #[trigger] t[k][i] <= '\u{7f}' by {
            assert(ascii_alphanumeric(t[k][i]));
        }
        assert(is_ascii_chars(t[k]));
        assert(ascii_lowered(t[k]) =~= t[k]) by {
            assert forall|i: int| 0 <= i < t[k].len() implies ascii_lowered(t[k])[i] == t[k][i] by {
                assert(ascii_alphanumeric(t[k][i]));
            }
        }
    }
    assert(low =~= t);
}

/// The words too common to look for.
pub open spec fn stopword(t: Seq<char>) -> bool {
    ||| t == "the"@
    ||| t == "a"@
    ||| t == "an"@
    ||| t == "is"@
    ||| t == "of"@
    ||| t == "to"@
    ||| t == "and"@
    ||| t == "it"@
    ||| t == "in"@
    ||| t == "on"@
    ||| t == "for"@
}

fn is_stopword(t: &str) -> (r: bool)
    ensures
        r == stopword(t@),
{
    same(t, "the") || same(t, "a") || same(t, "an") || same(t, "is") || same(t, "of") || same(t, "to")
        || same(t, "and") || same(t, "it") || same(t, "in") || same(t, "on") || same(t, "for")
}

/// All words are too common to look for.
pub open spec fn all_stopwords(ts: Seq<Seq<char>>) -> bool {
    forall|i: int| 0 <= i < ts.len() ==> stopword(#[trigger] ts[i])
}

/// Whether all words are too common to look for.
pub fn only_stopwords(words: &Vec<String>) -> (r: bool)
    ensures
        r == all_stopwords(texts(words@)),
{
    let mut i: usize = 0;
    while i < words.len()
        invariant
            i <= words.len(),
            forall|k: int| 0 <= k < i ==> stopword(#[trigger] texts(words@)[k]),
        decreases words.len() - i,
    {
        if !is_stopword(words[i].as_str()) {
            assert(!stopword(texts(words@)[i as int]));
            return false;
        }
        i = i + 1;
    }
    true
}

/// A question with nothing to look for, given its words.
pub open spec fn trivial(query: Seq<char>, words: Seq<Seq<char>>) -> bool {
    let t = trimmed(query);
    if t.len() == 0 {
        true
    } else if has_cjk(t) {
        low_information(t) || weight(t) < 4
    } else {
        t.len() < 3 || all_stopwords(words)
    }
}

/// Whether a question has nothing to look for: too short, or only words that are too common.
pub fn is_trivial(query: &str) -> (r: bool)
    ensures
        r == trivial(query@, tokens(trimmed(query@))),
{
    let t = str_trim(query);
    let words = tokenize(t.as_str());
    is_trivial_given(t.as_str(), &words)
}

/// Whether a trimmed question with the given words has nothing to look for.
pub fn is_trivial_given(t: &str, words: &Vec<String>) -> (r: bool)
    ensures
        r == (if t@.len() == 0 {
            true
        } else if has_cjk(t@) {
            low_information(t@) || weight(t@) < 4
        } else {
            t@.len() < 3 || all_stopwords(texts(words@))
        }),
{
    if t.is_empty() {
        return true;
    }
    if contains_cjk(t) {
        return is_low_information_cjk(t) || cjk_weighted_len(t) < 4;
    }
    if chars_of(t).len() < 3 {
        return true;
    }
    only_stopwords(words)
}

// ---------------------------------------------------------------------------
// Overlapping pairs
// ---------------------------------------------------------------------------

/// The overlapping pairs of a run of characters.
pub open spec fn bigrams(run: Seq<char>) -> Seq<Seq<char>> {
    Seq::new((run.len() - 1) as nat, |i: int| run.subrange(i, i + 2))
}

/// A run of characters as it is indexed: its overlapping pairs, or the only character.
pub open spec fn run_terms(run: Seq<char>) -> Seq<char> {
    if run.len() == 1 {
        run
    } else {
        joined(bigrams(run), " "@)
    }
}

/// The text with one more run, set apart by spaces.
pub open spec fn with_run(out: Seq<char>, run: Seq<char>) -> Seq<char> {
    if run.len() == 0 {
        out
    } else {
        (if out.len() > 0 && out.last() != ' ' {
            out.push(' ')
        } else {
            out
        }) + run_terms(run) + " "@
    }
}

/// What has been written, and the run being read.
pub struct Expansion {
    pub out: Seq<char>,
    pub run: Seq<char>,
}

/// What has been written after all characters of the text.
pub open spec fn expansion(s: Seq<char>) -> Expansion
    decreases s.len(),
{
    if s.len() == 0 {
        Expansion { out: Seq::empty(), run: Seq::empty() }
    } else {
        let before = expansion(s.drop_last());
        if cjk(s.last()) {
            Expansion { out: before.out, run: before.run.push(s.last()) }
        } else {
            Expansion { out: with_run(before.out, before.run).push(s.last()), run: Seq::empty() }
        }
    }
}

/// The text with each run of characters that have no spaces between words rewritten as
/// overlapping pairs.
pub open spec fn expanded(s: Seq<char>) -> Seq<char> {
    let e = expansion(s);
    with_run(e.out, e.run)
}

fn flush_cjk_run(out: &mut Vec<char>, run: &mut Vec<char>)
    ensures
        final(out)@ == with_run(old(out)@, old(run)@),
        final(run)@ == Seq::<char>::empty(),
{
    let ghost start = out@;
    let n: usize = run.len();
    if n == 0 {
        assert(run@ =~= Seq::empty());
        return;
    }
    let m: usize = out.len();
    if m > 0 && out[m - 1] != ' ' {
        out.push(' ');
    }
    let ghost base = out@;
    proof {
        reveal_strlit(" ");
    }
    if n == 1 {
        out.push(run[0]);
        assert(out@ =~= base + run@);
    } else {
        let ghost pairs = bigrams(run@);
        let mut i: usize = 0;
        assert(pairs.take(0) =~= Seq::empty());
        assert(out@ =~= base + joined(pairs.take(0), " "@));
        while i < n - 1
            invariant
                n == run@.len(),
                i <= n - 1,
                pairs == bigrams(run@),
                " "@ == seq![' '],
                out@ == base + joined(pairs.take(i as int), " "@),
            decreases n - 1 - i,
        {
            let ghost before = out@;
            if i > 0 {
                out.push(' ');
            }
            out.push(run[i]);
            out.push(run[i + 1]);
            proof {
                let now = pairs.take(i + 1);
                assert(now.drop_last() =~= pairs.take(i as int));
                assert(now.last() =~= seq![run@[i as int], run@[i + 1]]);
                if i == 0 {
                    assert(before =~= base);
                    assert(out@ =~= base + now[0]);
                } else {
                    assert(out@ =~= before + " "@ + now.last());
                    assert(out@ =~= base + (joined(pairs.take(i as int), " "@) + " "@ + now.last()));
                }
            }
            i = i + 1;
        }
        assert(pairs.take(i as int) =~= pairs);
    }
    let ghost body = out@;
    out.push(' ');
    assert(out@ =~= body + " "@);
    assert(out@ =~= with_run(start, run@));
    *run = Vec::new();
    assert(run@ =~= Seq::empty());
}

/// Rewrites runs of characters that have no spaces between words as overlapping pairs, so that
/// an index that splits at spaces finds terms in them. Everything else stays as it is.
pub fn cjk_expand(text: &str) -> (r: String)
    ensures
        r@ == expanded(text@),
{
    let v = chars_of(text);
    let mut out: Vec<char> = Vec::new();
    let mut run: Vec<char> = Vec::new();
    let mut i: usize = 0;
    proof {
        assert(out@ =~= expansion(v@.take(0)).out);
        assert(run@ =~= expansion(v@.take(0)).run);
    }
    while i < v.len()
        invariant
            i <= v.len(),
            v@ == text@,
            out@ == expansion(v@.take(i as int)).out,
            run@ == expansion(v@.take(i as int)).run,
        decreases v.len() - i,
    {
        assert(v@.take(i + 1).drop_last() =~= v@.take(i as int));
        if is_cjk_char(v[i]) {
            run.push(v[i]);
        } else {
            flush_cjk_run(&mut out, &mut run);
            out.push(v[i]);
        }
        i = i + 1;
    }
    assert(v@.take(i as int) =~= v@);
    flush_cjk_run(&mut out, &mut run);
    string_of(out.as_slice())
}

/// Text without such characters is left as it is.
pub proof fn other_text_is_untouched(s: Seq<char>)
    requires
        !has_cjk(s),
    ensures
        expanded(s) == s,
{
    untouched(s);
}

proof fn untouched(s: Seq<char>)
    requires
        !has_cjk(s),
    ensures
        expansion(s).out == s,
        expansion(s).run.len() == 0,
    decreases s.len(),
{
    if s.len() > 0 {
        let d = s.drop_last();
        assert(!has_cjk(d)) by {
            if has_cjk(d) {
                let i = choose|i: int| 0 <= i < d.len() && cjk(#[trigger] d[i]);
                assert(cjk(s[i]));
            }
        }
        untouched(d);
        assert(!cjk(s[s.len() - 1]));
        assert(d.push(s.last()) =~= s);
    } else {
        assert(expansion(s).out =~= s);
    }
}

/// The term stands at index `p` of the text as a word: nothing or a space before it, and a space
/// after it.
pub open spec fn word_at(text: Seq<char>, term: Seq<char>, p: int) -> bool {
    &&& occurs_at(text, term, p)
    &&& p == 0 || text[p - 1] == ' '
    &&& p + term.len() < text.len()
    &&& text[p + term.len()] == ' '
}

/// The term is a word of the text.
pub open spec fn is_word_of(term: Seq<char>, text: Seq<char>) -> bool {
    exists|p: int| #[trigger] word_at(text, term, p)
}

/// A phrase that stands inside a longer document is found by its overlapping pairs: the index
/// expression asks for these pairs and for nothing else, and each of them is a word of the
/// document as it is indexed.
pub proof fn phrases_are_indexed(document: Seq<char>, query: Seq<char>, at: int)
    requires
        occurs_at(document, query, at),
        query.len() >= 2,
        forall|i: int| 0 <= i < query.len() ==> cjk(#[trigger] query[i]),
    ensures
        expanded(query) == joined(bigrams(query), " "@) + " "@,
        forall|k: int|
            0 <= k < bigrams(query).len() ==> is_word_of(
                #[trigger] bigrams(query)[k],
                expanded(document),
            ),
{
    let e = expansion(document);
    run_of_one_script(query);
    assert(expanded(query) =~= joined(bigrams(query), " "@) + " "@);
    assert forall|j: int| 0 <= j < query.len() implies query[j] == document[at + j] by {
        assert(document.subrange(at, at + query.len())[j] == query[j]);
    }
    assert forall|k: int| 0 <= k < bigrams(query).len() implies is_word_of(
        #[trigger] bigrams(query)[k],
        expanded(document),
    ) by {
        let i = at + k;
        assert(bigrams(query)[k] =~= document.subrange(i, i + 2));
        assert(cjk(query[k]) && cjk(query[k + 1]));
        pairs_are_written(document, i);
        flushed_pairs(e.out, e.run, document, i);
    }
}

/// A phrase that stands inside a longer document shares its words with it, once both are
/// expanded: what is asked for and what is indexed get the same terms.
pub proof fn phrases_share_tokens(document: Seq<char>, query: Seq<char>, at: int)
    requires
        occurs_at(document, query, at),
        query.len() >= 2,
        forall|i: int| 0 <= i < query.len() ==> cjk(#[trigger] query[i]) && alphanumeric(query[i]),
    ensures
        tokens(expanded(query)) == bigrams(query).map_values(|t: Seq<char>| lowercase_of(t)),
        forall|k: int|
            0 <= k < tokens(expanded(query)).len() ==> tokens(expanded(document)).contains(
                #[trigger] tokens(expanded(query))[k],
            ),
{
    let pairs = bigrams(query);
    let terms = pairs.map_values(|t: Seq<char>| lowercase_of(t));
    phrases_are_indexed(document, query, at);
    assert forall|k: int| 0 <= k < pairs.len() implies (#[trigger] pairs[k]).len() > 0 && (forall|i: int|
        0 <= i < pairs[k].len() ==> alphanumeric(#[trigger] pairs[k][i])) by {
        assert forall|i: int| 0 <= i < pairs[k].len() implies alphanumeric(#[trigger] pairs[k][i]) by {
            assert(pairs[k][i] == query[k + i]);
        }
    }
    joined_runs(pairs);
    reveal_strlit(" ");
    assert(" "@ =~= seq![' ']);
    words_end_at_gaps(joined(pairs, " "@), ' ', Seq::empty());
    assert(joined(pairs, " "@) + seq![' '] + Seq::<char>::empty() =~= expanded(query));
    assert(terms + tokens(Seq::<char>::empty()) =~= terms);
    assert forall|k: int| 0 <= k < terms.len() implies tokens(expanded(document)).contains(
        #[trigger] terms[k],
    ) by {
        let p = choose|p: int| #[trigger] word_at(expanded(document), pairs[k], p);
        assert(is_word_of(pairs[k], expanded(document)));
        assert(pairs[k].len() > 0);
        words_are_tokens(expanded(document), pairs[k], p);
    }
}

/// A run of letters and numbers that stands as a word of a text is one of its tokens.
proof fn words_are_tokens(text: Seq<char>, term: Seq<char>, p: int)
    requires
        word_at(text, term, p),
        term.len() > 0,
        forall|i: int| 0 <= i < term.len() ==> alphanumeric(#[trigger] term[i]),
    ensures
        tokens(text).contains(lowercase_of(term)),
{
    let n = p + term.len();
    let rest = text.skip(n + 1);
    let tail = text.skip(p);
    unbroken_runs_are_words(term);
    words_end_at_gaps(term, ' ', rest);
    assert(tail =~= term + seq![' '] + rest) by {
        assert forall|i: int| 0 <= i < term.len() implies tail[i] == term[i] by {
            assert(text.subrange(p, n)[i] == term[i]);
        }
    }
    assert(tokens(tail)[0] == lowercase_of(term));
    if p > 0 {
        let head = text.take(p - 1);
        words_end_at_gaps(head, ' ', tail);
        assert(head + seq![' '] + tail =~= text);
        assert(tokens(text)[tokens(head).len() as int] == tokens(tail)[0]);
    } else {
        assert(tail =~= text);
    }
}

proof fn run_of_one_script(s: Seq<char>)
    requires
        forall|i: int| 0 <= i < s.len() ==> cjk(#[trigger] s[i]),
    ensures
        expansion(s).out == Seq::<char>::empty(),
        expansion(s).run == s,
    decreases s.len(),
{
    if s.len() > 0 {
        let d = s.drop_last();
        assert forall|i: int| 0 <= i < d.len() implies cjk(#[trigger] d[i]) by {
            assert(d[i] == s[i]);
        }
        run_of_one_script(d);
        assert(cjk(s[s.len() - 1]));
        assert(d.push(s.last()) =~= s);
    } else {
        assert(expansion(s).run =~= s);
    }
}

/// The pair at `i` is a word of what has been written, or stands in the run being read, which
/// is the end of the text.
spec fn pair_is_kept(out: Seq<char>, run: Seq<char>, s: Seq<char>, i: int) -> bool {
    &&& run.len() <= s.len()
    &&& run == s.skip(s.len() - run.len())
    &&& i < s.len() - run.len() ==> is_word_of(s.subrange(i, i + 2), out)
}

proof fn pairs_are_written(s: Seq<char>, i: int)
    requires
        0 <= i,
        i + 1 < s.len(),
        cjk(s[i]),
        cjk(s[i + 1]),
    ensures
        pair_is_kept(expansion(s).out, expansion(s).run, s, i),
    decreases s.len(),
{
    let d = s.drop_last();
    let before = expansion(d);
    run_ends_the_text(d);
    run_ends_the_text(s);
    if i + 1 < d.len() {
        pairs_are_written(d, i);
        assert(d.subrange(i, i + 2) =~= s.subrange(i, i + 2));
        if !cjk(s.last()) {
            flushed_pairs(before.out, before.run, d, i);
            let w = with_run(before.out, before.run);
            let p = choose|p: int| #[trigger] word_at(w, d.subrange(i, i + 2), p);
            assert(w.push(s.last()).take(w.len() as int) =~= w);
            longer_texts_keep_words(w, w.push(s.last()), d.subrange(i, i + 2), p);
        }
    } else {
        assert(cjk(s.last()));
        assert(d.last() == s[i]);
    }
}

proof fn run_ends_the_text(s: Seq<char>)
    ensures
        expansion(s).run.len() <= s.len(),
        expansion(s).run == s.skip(s.len() - expansion(s).run.len()),
        s.len() > 0 && cjk(s.last()) ==> expansion(s).run.len() > 0,
    decreases s.len(),
{
    if s.len() > 0 {
        run_ends_the_text(s.drop_last());
    }
    assert(expansion(s).run =~= s.skip(s.len() - expansion(s).run.len()));
}

/// Once the run is written too, the pair is a word of the text.
proof fn flushed_pairs(out: Seq<char>, run: Seq<char>, s: Seq<char>, i: int)
    requires
        0 <= i,
        i + 1 < s.len(),
        pair_is_kept(out, run, s, i),
    ensures
        is_word_of(s.subrange(i, i + 2), with_run(out, run)),
{
    let pair = s.subrange(i, i + 2);
    let whole = with_run(out, run);
    reveal_strlit(" ");
    if i < s.len() - run.len() {
        let p = choose|p: int| #[trigger] word_at(out, pair, p);
        assert(whole.take(out.len() as int) =~= out);
        longer_texts_keep_words(out, whole, pair, p);
    } else {
        let base = if out.len() > 0 && out.last() != ' ' {
            out.push(' ')
        } else {
            out
        };
        let k = i - (s.len() - run.len());
        assert(bigrams(run)[k] =~= pair);
        assert(run.len() >= 2);
        let p = joined_parts_are_words(base, bigrams(run), k);
        assert(whole =~= base + joined(bigrams(run), " "@) + " "@);
        assert(word_at(whole, pair, p));
    }
}

proof fn longer_texts_keep_words(text: Seq<char>, longer: Seq<char>, term: Seq<char>, p: int)
    requires
        word_at(text, term, p),
        text.len() <= longer.len(),
        longer.take(text.len() as int) == text,
    ensures
        word_at(longer, term, p),
{
    assert forall|j: int| 0 <= j < text.len() implies longer[j] == text[j] by {
        assert(longer.take(text.len() as int)[j] == text[j]);
    }
    assert(longer.subrange(p, p + term.len()) =~= text.subrange(p, p + term.len()));
}

proof fn joined_parts_are_words(base: Seq<char>, parts: Seq<Seq<char>>, k: int) -> (p: int)
    requires
        0 <= k < parts.len(),
        base.len() == 0 || base.last() == ' ',
    ensures
        word_at(base + joined(parts, " "@) + " "@, parts[k], p),
    decreases parts.len(),
{
    reveal_strlit(" ");
    let whole = base + joined(parts, " "@) + " "@;
    if k == parts.len() - 1 {
        let p = whole.len() - 1 - parts[k].len();
        assert(whole.subrange(p, p + parts[k].len()) =~= parts[k]);
        p
    } else {
        let init = parts.drop_last();
        let shorter = base + joined(init, " "@) + " "@;
        let p = joined_parts_are_words(base, init, k);
        assert(whole.take(shorter.len() as int) =~= shorter);
        longer_texts_keep_words(shorter, whole, parts[k], p);
        p
    }
}

/// The quoted terms of a question.
pub open spec fn quoted_terms(ts: Seq<Seq<char>>) -> Seq<Seq<char>> {
    ts.map_values(|t: Seq<char>| "\""@ + t + "\""@)
}

/// The index expression for some terms: any of them, each in quotes; none where there are no
/// terms.
pub open spec fn match_expression(ts: Seq<Seq<char>>) -> Option<Seq<char>> {
    if ts.len() == 0 {
        None
    } else {
        Some(joined(quoted_terms(ts), " OR "@))
    }
}

/// The index expression for some terms.
pub fn match_any(words: &Vec<String>) -> (r: Option<String>)
    ensures
        opt_text(r) == match_expression(texts(words@)),
{
    if words.len() == 0 {
        return None;
    }
    let ghost all = quoted_terms(texts(words@));
    let mut quoted: Vec<String> = Vec::new();
    let mut i: usize = 0;
    assert(texts(quoted@) =~= all.take(0));
    while i < words.len()
        invariant
            i <= words.len(),
            all == quoted_terms(texts(words@)),
            texts(quoted@) == all.take(i as int),
        decreases words.len() - i,
    {
        let mut q = String::from_str("\"");
        q.append(words[i].as_str());
        q.append("\"");
        push_text(&mut quoted, q.as_str());
        i = i + 1;
        assert(texts(quoted@) =~= all.take(i as int));
    }
    assert(all.take(i as int) =~= all);
    Some(join(&quoted, " OR "))
}

/// The index expression for a question.
pub fn fts_match_string(query: &str) -> (r: Option<String>)
    ensures
        opt_text(r) == match_expression(tokens(expanded(query@))),
{
    let text = cjk_expand(query);
    let words = tokenize(text.as_str());
    match_any(&words)
}

} // verus!
