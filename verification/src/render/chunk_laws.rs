//! What holds of every list of chunks: no visible character is lost, each shows the text as it stands, no
//! tag stays open, tags nest, and no chunk is too large or blank.
use crate::render::chunks::{
    after_pieces, after_tag, after_text, all_small, chunked, chunks_from, close_tag, closed_last, closers, closing, cut_at,
    fit, flushed, forced, fresh, index_of, is_shown, kept, last_named, lead_stripped, leaves_room,
    name_of, open_then, openers, pieces, room, shown, shown_tags, shown_tags_are_open, tail_stripped, up_to_gap,
    widest, widest_under, with_text, written_close, Opening, Piece, Progress,
};
use crate::text::{
    blank, has, longer_texts_hold_as_much, occurs_at, parts_are_found, trim_end, trim_start, trimmed, utf8_len,
    utf8_len_bounds, utf8_len_concat, utf8_width, white,
};
use vstd::prelude::*;

verus! {

// ---------------------------------------------------------------------------
// Reading HTML character by character
// ---------------------------------------------------------------------------

/// What a reader has seen of a text: the characters outside tags, the finished tags, and the tag
/// being read, if any.
pub struct Scan {
    pub inside: bool,
    pub plain: Seq<char>,
    pub tags: Seq<Seq<char>>,
    pub open: Seq<char>,
}

/// A reader that has seen nothing.
pub open spec fn unread() -> Scan {
    Scan { inside: false, plain: Seq::empty(), tags: Seq::empty(), open: Seq::empty() }
}

/// Reads one character.
pub open spec fn scan_step(s: Scan, c: char) -> Scan {
    if s.inside {
        if c == '>' {
            Scan { inside: false, plain: s.plain, tags: s.tags.push(s.open.push(c)), open: Seq::empty() }
        } else {
            Scan { inside: true, plain: s.plain, tags: s.tags, open: s.open.push(c) }
        }
    } else if c == '<' {
        Scan { inside: true, plain: s.plain, tags: s.tags, open: seq![c] }
    } else {
        Scan { inside: false, plain: s.plain.push(c), tags: s.tags, open: Seq::empty() }
    }
}

/// Reads a text from the given state on.
pub open spec fn scan_from(s: Scan, t: Seq<char>) -> Scan
    decreases t.len(),
{
    if t.len() == 0 {
        s
    } else {
        scan_step(scan_from(s, t.drop_last()), t.last())
    }
}

/// The characters of the HTML outside tags.
pub open spec fn visible(html: Seq<char>) -> Seq<char> {
    scan_from(unread(), html).plain
}

/// The tags of the HTML, in order.
pub open spec fn tags(html: Seq<char>) -> Seq<Seq<char>> {
    scan_from(unread(), html).tags
}

/// Every `<` of the HTML that starts a tag is followed by a `>`.
pub open spec fn complete(html: Seq<char>) -> bool {
    !scan_from(unread(), html).inside
}

/// The characters that are not white space.
pub open spec fn ink(s: Seq<char>) -> Seq<char>
    decreases s.len(),
{
    if s.len() == 0 {
        Seq::empty()
    } else if white(s.last()) {
        ink(s.drop_last())
    } else {
        ink(s.drop_last()).push(s.last())
    }
}

/// The texts one after another.
pub open spec fn flat(chunks: Seq<Seq<char>>) -> Seq<char>
    decreases chunks.len(),
{
    if chunks.len() == 0 {
        Seq::empty()
    } else {
        flat(chunks.drop_last()) + chunks.last()
    }
}

/// The tags left open after a run of tags: a closing tag closes the last open tag of its name.
pub open spec fn open_after(t: Seq<Seq<char>>) -> Seq<Seq<char>>
    decreases t.len(),
{
    if t.len() == 0 {
        Seq::empty()
    } else if closing(t.last()) {
        closed_last(open_after(t.drop_last()), name_of(t.last()))
    } else {
        open_after(t.drop_last()).push(t.last())
    }
}

proof fn scan_from_concat(s: Scan, a: Seq<char>, b: Seq<char>)
    ensures
        scan_from(s, a + b) == scan_from(scan_from(s, a), b),
    decreases b.len(),
{
    if b.len() == 0 {
        assert(a + b =~= a);
    } else {
        assert((a + b).drop_last() =~= a + b.drop_last());
        scan_from_concat(s, a, b.drop_last());
    }
}

proof fn scan_from_shift(s: Scan, t: Seq<char>)
    requires
        !s.inside,
        s.open =~= Seq::empty(),
    ensures
        scan_from(s, t).inside == scan_from(unread(), t).inside,
        scan_from(s, t).open == scan_from(unread(), t).open,
        scan_from(s, t).plain == s.plain + visible(t),
        scan_from(s, t).tags == s.tags + tags(t),
    decreases t.len(),
{
    if t.len() == 0 {
        assert(s.plain + visible(t) =~= s.plain);
        assert(s.tags + tags(t) =~= s.tags);
    } else {
        scan_from_shift(s, t.drop_last());
        assert(scan_from(s, t).plain =~= s.plain + visible(t));
        assert(scan_from(s, t).tags =~= s.tags + tags(t));
    }
}

proof fn closed_scan_is_clear(t: Seq<char>)
    requires
        complete(t),
    ensures
        scan_from(unread(), t).open == Seq::<char>::empty(),
    decreases t.len(),
{
    if t.len() > 0 {
        let before = scan_from(unread(), t.drop_last());
        if !before.inside {
            closed_scan_is_clear(t.drop_last());
        }
    }
}

pub proof fn reading_concat(a: Seq<char>, b: Seq<char>)
    requires
        complete(a),
    ensures
        visible(a + b) == visible(a) + visible(b),
        tags(a + b) == tags(a) + tags(b),
        complete(a + b) == complete(b),
{
    scan_from_concat(unread(), a, b);
    closed_scan_is_clear(a);
    scan_from_shift(scan_from(unread(), a), b);
}

/// What is visible holds no `<`.
pub proof fn visible_is_plain(html: Seq<char>)
    ensures
        !visible(html).contains('<'),
    decreases html.len(),
{
    if html.len() > 0 {
        let d = html.drop_last();
        visible_is_plain(d);
        if visible(html).contains('<') {
            let k = visible(html).index_of('<');
            if k < visible(d).len() {
                assert(visible(d)[k] == '<');
            }
        }
    }
}

pub proof fn ink_concat(a: Seq<char>, b: Seq<char>)
    ensures
        ink(a + b) == ink(a) + ink(b),
    decreases b.len(),
{
    if b.len() == 0 {
        assert(a + b =~= a);
        assert(ink(a) + ink(b) =~= ink(a));
    } else {
        assert((a + b).drop_last() =~= a + b.drop_last());
        ink_concat(a, b.drop_last());
        assert(ink(a + b) =~= ink(a) + ink(b));
    }
}

// ---------------------------------------------------------------------------
// Tags and text runs
// ---------------------------------------------------------------------------

/// A full tag: it starts with `<` and its only `>` is its last character.
pub open spec fn full_tag(t: Seq<char>) -> bool {
    &&& t.len() >= 2
    &&& t[0] == '<'
    &&& t.last() == '>'
    &&& forall|i: int| 0 <= i < t.len() - 1 ==> t[i] != '>'
}

/// A run of text without any `<`.
pub open spec fn plain_text(t: Seq<char>) -> bool {
    forall|i: int| 0 <= i < t.len() ==> t[i] != '<'
}

spec fn sound(p: Piece) -> bool {
    match p {
        Piece::Tag(t) => full_tag(t),
        Piece::Text(t) => plain_text(t),
    }
}

spec fn all_sound(t: Seq<Piece>) -> bool {
    forall|i: int| 0 <= i < t.len() ==> sound(#[trigger] t[i])
}

spec fn text_of(t: Seq<Piece>) -> Seq<char>
    decreases t.len(),
{
    if t.len() == 0 {
        Seq::empty()
    } else {
        match t.last() {
            Piece::Tag(_) => text_of(t.drop_last()),
            Piece::Text(s) => text_of(t.drop_last()) + s,
        }
    }
}

spec fn tags_of(t: Seq<Piece>) -> Seq<Seq<char>>
    decreases t.len(),
{
    if t.len() == 0 {
        Seq::empty()
    } else {
        match t.last() {
            Piece::Tag(s) => tags_of(t.drop_last()).push(s),
            Piece::Text(_) => tags_of(t.drop_last()),
        }
    }
}

pub proof fn reading_plain(t: Seq<char>)
    requires
        plain_text(t),
    ensures
        complete(t),
        visible(t) == t,
        tags(t) == Seq::<Seq<char>>::empty(),
    decreases t.len(),
{
    if t.len() > 0 {
        assert(plain_text(t.drop_last()));
        reading_plain(t.drop_last());
        assert(t.drop_last().push(t.last()) =~= t);
        assert(t[t.len() - 1] != '<');
        closed_scan_is_clear(t.drop_last());
    } else {
        assert(visible(t) =~= t);
    }
}

proof fn reading_inside(t: Seq<char>, n: int)
    requires
        full_tag(t),
        1 <= n < t.len(),
    ensures
        scan_from(unread(), t.take(n)) == (Scan {
            inside: true,
            plain: Seq::empty(),
            tags: Seq::empty(),
            open: t.take(n),
        }),
    decreases n,
{
    if n == 1 {
        assert(t.take(1).drop_last() =~= Seq::<char>::empty());
        assert(t.take(1) =~= seq!['<']);
        assert(scan_from(unread(), t.take(1).drop_last()) == unread());
    } else {
        reading_inside(t, n - 1);
        assert(t.take(n).drop_last() =~= t.take(n - 1));
        assert(t.take(n - 1).push(t[n - 1]) =~= t.take(n));
    }
}

pub proof fn reading_tag(t: Seq<char>)
    requires
        full_tag(t),
    ensures
        complete(t),
        visible(t) == Seq::<char>::empty(),
        tags(t) == seq![t],
{
    reading_inside(t, t.len() - 1);
    assert(t.drop_last() =~= t.take(t.len() - 1));
    assert(t.drop_last().push(t.last()) =~= t);
    assert(tags(t) =~= seq![t]);
}

proof fn index_facts(s: Seq<char>, c: char)
    ensures
        0 <= index_of(s, c) <= s.len(),
        index_of(s, c) < s.len() ==> s[index_of(s, c)] == c,
        forall|k: int| 0 <= k < index_of(s, c) ==> s[k] != c,
    decreases s.len(),
{
    if s.len() > 0 && s[0] != c {
        index_facts(s.drop_first(), c);
        assert forall|k: int| 0 <= k < index_of(s, c) implies s[k] != c by {
            if k > 0 {
                assert(s[k] == s.drop_first()[k - 1]);
            }
        }
    }
}

proof fn inside_stays(t: Seq<char>)
    requires
        t.len() >= 1,
        t[0] == '<',
        forall|i: int| 0 <= i < t.len() ==> t[i] != '>',
    ensures
        scan_from(unread(), t).inside,
    decreases t.len(),
{
    if t.len() == 1 {
        assert(t.drop_last() =~= Seq::<char>::empty());
        assert(scan_from(unread(), t.drop_last()) == unread());
    } else {
        assert(t.drop_last()[0] == '<');
        inside_stays(t.drop_last());
        assert(t[t.len() - 1] != '>');
    }
}

proof fn text_of_concat(a: Piece, t: Seq<Piece>)
    ensures
        text_of(seq![a] + t) == text_of(seq![a]) + text_of(t),
        tags_of(seq![a] + t) == tags_of(seq![a]) + tags_of(t),
    decreases t.len(),
{
    let one = seq![a];
    if t.len() == 0 {
        assert(one + t =~= one);
        assert(text_of(one) + text_of(t) =~= text_of(one));
        assert(tags_of(one) + tags_of(t) =~= tags_of(one));
    } else {
        assert((one + t).drop_last() =~= one + t.drop_last());
        text_of_concat(a, t.drop_last());
        assert(text_of(one + t) =~= text_of(one) + text_of(t));
        assert(tags_of(one + t) =~= tags_of(one) + tags_of(t));
    }
}

proof fn pieces_read(s: Seq<char>)
    requires
        complete(s),
    ensures
        all_sound(pieces(s)),
        text_of(pieces(s)) == visible(s),
        tags_of(pieces(s)) == tags(s),
    decreases s.len(),
{
    index_facts(s, '<');
    index_facts(s, '>');
    let lt = index_of(s, '<');
    let gt = index_of(s, '>');
    if s.len() == 0 {
        assert(text_of(pieces(s)) =~= visible(s));
    } else if lt > 0 {
        let a = s.take(lt);
        let b = s.skip(lt);
        assert(s =~= a + b);
        reading_plain(a);
        reading_concat(a, b);
        pieces_read(b);
        let one = seq![Piece::Text(a)];
        text_of_concat(Piece::Text(a), pieces(b));
        assert(one.drop_last() =~= Seq::<Piece>::empty());
        assert(text_of(one) =~= a) by {
            reveal_with_fuel(text_of, 2);
        }
        assert(tags_of(one) =~= Seq::<Seq<char>>::empty()) by {
            reveal_with_fuel(tags_of, 2);
        }
        assert(tags_of(pieces(s)) =~= tags(s));
    } else if gt < s.len() {
        let a = s.take(gt + 1);
        let b = s.skip(gt + 1);
        assert(s =~= a + b);
        assert(full_tag(a));
        reading_tag(a);
        reading_concat(a, b);
        pieces_read(b);
        let one = seq![Piece::Tag(a)];
        text_of_concat(Piece::Tag(a), pieces(b));
        assert(one.drop_last() =~= Seq::<Piece>::empty());
        assert(text_of(one) =~= Seq::<char>::empty()) by {
            reveal_with_fuel(text_of, 2);
        }
        assert(tags_of(one) =~= seq![a]) by {
            reveal_with_fuel(tags_of, 2);
        }
        assert(text_of(pieces(s)) =~= visible(s));
        assert(tags_of(pieces(s)) =~= tags(s));
    } else {
        assert(s[0] == '<');
        inside_stays(s);
    }
}

// ---------------------------------------------------------------------------
// Closing tags
// ---------------------------------------------------------------------------

spec fn lacks(s: Seq<char>, c: char) -> bool {
    forall|i: int| 0 <= i < s.len() ==> s[i] != c
}

proof fn lead_stripped_facts(s: Seq<char>, c: char)
    ensures
        lead_stripped(s, c).len() <= s.len(),
        lead_stripped(s, c) == s.skip(s.len() - lead_stripped(s, c).len()),
        lead_stripped(s, c).len() > 0 ==> lead_stripped(s, c)[0] != c,
    decreases s.len(),
{
    if s.len() > 0 && s[0] == c {
        lead_stripped_facts(s.drop_first(), c);
        let r = lead_stripped(s.drop_first(), c);
        assert(s.drop_first().skip(s.len() - 1 - r.len()) =~= s.skip(s.len() - r.len()));
    } else {
        assert(s.skip(0) =~= s);
    }
}

proof fn gap_facts(s: Seq<char>)
    ensures
        up_to_gap(s).len() <= s.len(),
        up_to_gap(s) == s.take(up_to_gap(s).len() as int),
        lacks(up_to_gap(s), ' '),
        lacks(up_to_gap(s), '\t'),
    decreases s.len(),
{
    if s.len() == 0 || s[0] == ' ' || s[0] == '\t' {
        assert(up_to_gap(s) =~= s.take(0));
    } else {
        gap_facts(s.drop_first());
        let r = up_to_gap(s.drop_first());
        assert(up_to_gap(s) =~= s.take(r.len() as int + 1));
        assert forall|i: int| 0 <= i < up_to_gap(s).len() implies up_to_gap(s)[i] != ' '
            && up_to_gap(s)[i] != '\t' by {
            if i > 0 {
                assert(up_to_gap(s)[i] == r[i - 1]);
            }
        }
    }
}

proof fn gapless(s: Seq<char>)
    requires
        lacks(s, ' '),
        lacks(s, '\t'),
    ensures
        up_to_gap(s) == s,
    decreases s.len(),
{
    if s.len() > 0 {
        assert(s[0] != ' ' && s[0] != '\t');
        assert forall|i: int| 0 <= i < s.drop_first().len() implies s.drop_first()[i] != ' '
            && s.drop_first()[i] != '\t' by {
            assert(s.drop_first()[i] == s[i + 1]);
        }
        gapless(s.drop_first());
        assert(seq![s[0]] + s.drop_first() =~= s);
    } else {
        assert(up_to_gap(s) =~= s);
    }
}

/// A tag name holds no `>`, no gap, and does not start with a slash.
proof fn name_facts(t: Seq<char>)
    requires
        full_tag(t),
    ensures
        lacks(name_of(t), '>'),
        lacks(name_of(t), ' '),
        lacks(name_of(t), '\t'),
        name_of(t).len() > 0 ==> name_of(t)[0] != '/',
{
    let a = lead_stripped(t, '<');
    lead_stripped_facts(t, '<');
    let b = lead_stripped(a, '/');
    lead_stripped_facts(a, '/');
    // The last character is `>`, so neither step strips it.
    if a.len() == 0 {
        all_stripped(t, '<');
        assert(false);
    }
    assert(a.last() == '>');
    if b.len() == 0 {
        all_stripped(a, '/');
        assert(false);
    }
    assert(b.last() == '>');
    assert forall|i: int| 0 <= i < b.len() - 1 implies b[i] != '>' by {
        assert(b[i] == a[i + (a.len() - b.len())]);
        assert(a[i + (a.len() - b.len())] == t[i + (a.len() - b.len()) + (t.len() - a.len())]);
    }
    let c = tail_stripped(b, '>');
    assert(c == b.drop_last()) by {
        reveal_with_fuel(tail_stripped, 3);
    }
    gap_facts(c);
    assert forall|i: int| 0 <= i < name_of(t).len() implies name_of(t)[i] != '>' by {
        assert(name_of(t)[i] == b[i]);
    }
}

proof fn all_stripped(s: Seq<char>, c: char)
    requires
        lead_stripped(s, c).len() == 0,
    ensures
        forall|i: int| 0 <= i < s.len() ==> s[i] == c,
    decreases s.len(),
{
    if s.len() > 0 && s[0] == c {
        all_stripped(s.drop_first(), c);
        assert forall|i: int| 0 <= i < s.len() implies s[i] == c by {
            if i > 0 {
                assert(s[i] == s.drop_first()[i - 1]);
            }
        }
    }
}

/// The closing tag of a full tag is a full closing tag of the same name.
proof fn close_tag_facts(t: Seq<char>)
    requires
        full_tag(t),
    ensures
        full_tag(close_tag(t)),
        closing(close_tag(t)),
        name_of(close_tag(t)) == name_of(t),
{
    name_facts(t);
    let n = name_of(t);
    let k = close_tag(t);
    assert(k.subrange(0, 2) =~= seq!['<', '/']);
    assert(full_tag(k)) by {
        assert forall|i: int| 0 <= i < k.len() - 1 implies k[i] != '>' by {
            if i >= 2 {
                assert(k[i] == n[i - 2]);
            }
        }
    }
    let a = lead_stripped(k, '<');
    assert(a =~= seq!['/'] + n + seq!['>']) by {
        reveal_with_fuel(lead_stripped, 2);
        assert(k.drop_first() =~= seq!['/'] + n + seq!['>']);
    }
    let b = lead_stripped(a, '/');
    assert(b =~= n + seq!['>']) by {
        reveal_with_fuel(lead_stripped, 2);
        assert(a.drop_first() =~= n + seq!['>']);
        assert(a.drop_first()[0] != '/');
    }
    let c = tail_stripped(b, '>');
    assert(c =~= n) by {
        reveal_with_fuel(tail_stripped, 2);
        assert(b.drop_last() =~= n);
        if n.len() > 0 {
            assert(n.last() == n[n.len() - 1]);
        }
    }
    gapless(n);
}

// ---------------------------------------------------------------------------
// What every step keeps
// ---------------------------------------------------------------------------

/// The open tags are full opening tags.
spec fn stack_sound(stack: Seq<Seq<char>>) -> bool {
    forall|i: int| 0 <= i < stack.len() ==> full_tag(#[trigger] stack[i]) && !closing(stack[i])
}

/// A chunk that leaves no tag open.
pub open spec fn balanced(chunk: Seq<char>) -> bool {
    complete(chunk) && open_after(tags(chunk)).len() == 0
}

spec fn progress_sound(p: Progress) -> bool {
    &&& stack_sound(p.stack)
    &&& complete(p.cur)
    &&& open_after(tags(p.cur)) == p.stack
    &&& forall|i: int| 0 <= i < p.chunks.len() ==> balanced(#[trigger] p.chunks[i])
}

spec fn seen(p: Progress) -> Seq<char> {
    ink(visible(flat(p.chunks) + p.cur))
}

proof fn openers_read(stack: Seq<Seq<char>>)
    requires
        stack_sound(stack),
    ensures
        complete(openers(stack)),
        visible(openers(stack)) == Seq::<char>::empty(),
        tags(openers(stack)) == stack,
        open_after(stack) == stack,
    decreases stack.len(),
{
    if stack.len() == 0 {
        assert(visible(openers(stack)) =~= Seq::<char>::empty());
        assert(tags(openers(stack)) =~= stack);
        assert(open_after(stack) =~= stack);
    } else {
        let d = stack.drop_last();
        assert(stack_sound(d)) by {
            assert forall|i: int| 0 <= i < d.len() implies full_tag(#[trigger] d[i]) && !closing(
                d[i],
            ) by {
                assert(d[i] == stack[i]);
            }
        }
        openers_read(d);
        assert(full_tag(stack[stack.len() - 1]));
        reading_tag(stack.last());
        reading_concat(openers(d), stack.last());
        assert(visible(openers(stack)) =~= Seq::<char>::empty());
        assert(tags(openers(stack)) =~= stack);
        assert(d.push(stack.last()) =~= stack);
    }
}

proof fn open_after_concat(a: Seq<Seq<char>>, t: Seq<char>)
    ensures
        open_after(a.push(t)) == (if closing(t) {
            closed_last(open_after(a), name_of(t))
        } else {
            open_after(a).push(t)
        }),
{
    assert(a.push(t).drop_last() =~= a);
}

/// Writing the closing tags of all open tags leaves none open.
proof fn closers_read(cur: Seq<char>, stack: Seq<Seq<char>>)
    requires
        stack_sound(stack),
        complete(cur),
        open_after(tags(cur)) == stack,
    ensures
        complete(cur + closers(stack)),
        visible(cur + closers(stack)) == visible(cur),
        open_after(tags(cur + closers(stack))).len() == 0,
    decreases stack.len(),
{
    if stack.len() == 0 {
        assert(cur + closers(stack) =~= cur);
    } else {
        let t = stack.last();
        let d = stack.drop_last();
        assert(full_tag(stack[stack.len() - 1]));
        close_tag_facts(t);
        reading_tag(close_tag(t));
        reading_concat(cur, close_tag(t));
        let next = cur + close_tag(t);
        assert(visible(next) =~= visible(cur));
        assert(tags(next) =~= tags(cur).push(close_tag(t)));
        open_after_concat(tags(cur), close_tag(t));
        assert(open_after(tags(next)) == d);
        assert(stack_sound(d)) by {
            assert forall|i: int| 0 <= i < d.len() implies full_tag(#[trigger] d[i]) && !closing(
                d[i],
            ) by {
                assert(d[i] == stack[i]);
            }
        }
        closers_read(next, d);
        assert(next + closers(d) =~= cur + closers(stack));
    }
}

proof fn all_white_when_blank(s: Seq<char>)
    requires
        blank(s),
    ensures
        forall|i: int| 0 <= i < s.len() ==> white(s[i]),
{
    white_end(trim_start(s));
    white_start(s);
}

proof fn white_end(s: Seq<char>)
    requires
        trim_end(s).len() == 0,
    ensures
        forall|i: int| 0 <= i < s.len() ==> white(s[i]),
    decreases s.len(),
{
    if s.len() > 0 && white(s.last()) {
        white_end(s.drop_last());
        assert forall|i: int| 0 <= i < s.len() implies white(s[i]) by {
            if i < s.len() - 1 {
                assert(s[i] == s.drop_last()[i]);
            }
        }
    }
}

proof fn white_start(s: Seq<char>)
    requires
        forall|i: int| 0 <= i < trim_start(s).len() ==> white(trim_start(s)[i]),
    ensures
        forall|i: int| 0 <= i < s.len() ==> white(s[i]),
    decreases s.len(),
{
    let r = trim_start(s);
    if s.len() > 0 && white(s[0]) {
        let d = s.drop_first();
        assert(r == trim_start(d));
        assert forall|i: int| 0 <= i < trim_start(d).len() implies white(trim_start(d)[i]) by {
            assert(white(r[i]));
        }
        white_start(d);
        assert forall|i: int| 0 <= i < s.len() implies white(s[i]) by {
            if i > 0 {
                assert(s[i] == s.drop_first()[i - 1]);
            }
        }
    } else {
        assert forall|i: int| 0 <= i < s.len() implies white(s[i]) by {
            assert(white(r[i]));
        }
    }
}

proof fn ink_of_white(s: Seq<char>)
    requires
        forall|i: int| 0 <= i < s.len() ==> white(s[i]),
    ensures
        ink(s) == Seq::<char>::empty(),
        plain_text(s),
    decreases s.len(),
{
    if s.len() > 0 {
        assert forall|i: int| 0 <= i < s.drop_last().len() implies white(s.drop_last()[i]) by {
            assert(s.drop_last()[i] == s[i]);
        }
        ink_of_white(s.drop_last());
        assert(white(s[s.len() - 1]));
        assert forall|i: int| 0 <= i < s.len() implies s[i] != '<' by {
            assert(white(s[i]));
        }
    }
}

proof fn blank_has_no_ink(s: Seq<char>)
    requires
        blank(s),
    ensures
        complete(s),
        ink(visible(s)) == Seq::<char>::empty(),
{
    all_white_when_blank(s);
    ink_of_white(s);
    reading_plain(s);
}

proof fn flat_complete(chunks: Seq<Seq<char>>)
    requires
        forall|i: int| 0 <= i < chunks.len() ==> balanced(#[trigger] chunks[i]),
    ensures
        complete(flat(chunks)),
    decreases chunks.len(),
{
    if chunks.len() > 0 {
        let d = chunks.drop_last();
        assert forall|i: int| 0 <= i < d.len() implies balanced(#[trigger] d[i]) by {
            assert(d[i] == chunks[i]);
        }
        flat_complete(d);
        assert(balanced(chunks[chunks.len() - 1]));
        reading_concat(flat(d), chunks.last());
    }
}

proof fn seen_splits(p: Progress)
    requires
        progress_sound(p),
    ensures
        complete(flat(p.chunks)),
        seen(p) == ink(visible(flat(p.chunks))) + ink(visible(p.cur)),
{
    flat_complete(p.chunks);
    reading_concat(flat(p.chunks), p.cur);
    ink_concat(visible(flat(p.chunks)), visible(p.cur));
}

/// Keeping a finished chunk that leaves no tag open.
proof fn kept_sound(chunks: Seq<Seq<char>>, chunk: Seq<char>)
    requires
        forall|i: int| 0 <= i < chunks.len() ==> balanced(#[trigger] chunks[i]),
        balanced(chunk),
    ensures
        forall|i: int| 0 <= i < kept(chunks, chunk).len() ==> balanced(#[trigger] kept(chunks, chunk)[i]),
        complete(flat(kept(chunks, chunk))),
        ink(visible(flat(kept(chunks, chunk)))) == ink(visible(flat(chunks))) + ink(visible(chunk)),
{
    flat_complete(chunks);
    let k = kept(chunks, chunk);
    if blank(chunk) {
        blank_has_no_ink(chunk);
        assert(ink(visible(flat(chunks))) + ink(visible(chunk)) =~= ink(visible(flat(chunks))));
    } else {
        assert(k.drop_last() =~= chunks);
        reading_concat(flat(chunks), chunk);
        ink_concat(visible(flat(chunks)), visible(chunk));
        assert forall|i: int| 0 <= i < k.len() implies balanced(#[trigger] k[i]) by {
            if i < chunks.len() {
                assert(k[i] == chunks[i]);
            }
        }
    }
}

proof fn flushed_sound(p: Progress)
    requires
        progress_sound(p),
    ensures
        progress_sound(flushed(p)),
        seen(flushed(p)) == seen(p),
{
    let q = flushed(p);
    closers_read(p.cur, p.stack);
    openers_read(p.stack);
    kept_sound(p.chunks, p.cur + closers(p.stack));
    seen_splits(p);
    seen_splits(q);
    assert(ink(visible(q.cur)) =~= Seq::<char>::empty());
    assert(seen(q) =~= seen(p));
}

proof fn text_added(p: Progress, s: Seq<char>)
    requires
        progress_sound(p),
        plain_text(s),
    ensures
        progress_sound(with_text(p, s)),
        seen(with_text(p, s)) == seen(p) + ink(s),
{
    let q = with_text(p, s);
    reading_plain(s);
    reading_concat(p.cur, s);
    assert(tags(q.cur) =~= tags(p.cur));
    seen_splits(p);
    seen_splits(q);
    ink_concat(visible(p.cur), s);
    assert(seen(q) =~= seen(p) + ink(s));
}

proof fn cuts(p: Progress, s: Seq<char>, max: nat)
    ensures
        0 <= cut_at(s, room(p, max)) <= s.len(),
        utf8_len(s) > room(p, max) ==> 1 <= forced(p, s, max) <= s.len(),
{
    crate::render::chunks::text_cuts(p, s, max);
}

proof fn after_text_sound(p: Progress, s: Seq<char>, max: nat)
    requires
        progress_sound(p),
        plain_text(s),
    ensures
        progress_sound(after_text(p, s, max)),
        after_text(p, s, max).stack == p.stack,
        seen(after_text(p, s, max)) == seen(p) + ink(s),
    decreases s.len(), (if fresh(p) { 0int } else { 1int }),
{
    cuts(p, s, max);
    let cut = cut_at(s, room(p, max));
    if utf8_len(s) <= room(p, max) {
        text_added(p, s);
    } else if cut > 0 {
        cut_sound(p, s, cut);
        after_text_sound(flushed(with_text(p, s.take(cut))), s.skip(cut), max);
        assert(seen(p) + ink(s.take(cut)) + ink(s.skip(cut)) =~= seen(p) + ink(s));
    } else if !fresh(p) {
        flushed_sound(p);
        after_text_sound(flushed(p), s, max);
    } else {
        let n = forced(p, s, max);
        cut_sound(p, s, n);
        after_text_sound(flushed(with_text(p, s.take(n))), s.skip(n), max);
        assert(seen(p) + ink(s.take(n)) + ink(s.skip(n)) =~= seen(p) + ink(s));
    }
}

proof fn cut_sound(p: Progress, s: Seq<char>, n: int)
    requires
        progress_sound(p),
        plain_text(s),
        0 <= n <= s.len(),
    ensures
        plain_text(s.take(n)),
        plain_text(s.skip(n)),
        progress_sound(flushed(with_text(p, s.take(n)))),
        seen(flushed(with_text(p, s.take(n)))) == seen(p) + ink(s.take(n)),
        ink(s) == ink(s.take(n)) + ink(s.skip(n)),
{
    assert(s.take(n) + s.skip(n) =~= s);
    ink_concat(s.take(n), s.skip(n));
    text_added(p, s.take(n));
    flushed_sound(with_text(p, s.take(n)));
}

proof fn closed_last_sound(stack: Seq<Seq<char>>, name: Seq<char>)
    requires
        stack_sound(stack),
    ensures
        stack_sound(closed_last(stack, name)),
    decreases stack.len(),
{
    if stack.len() > 0 {
        let d = stack.drop_last();
        assert(stack_sound(d)) by {
            assert forall|i: int| 0 <= i < d.len() implies full_tag(#[trigger] d[i]) && !closing(
                d[i],
            ) by {
                assert(d[i] == stack[i]);
            }
        }
        closed_last_sound(d, name);
        let r = closed_last(stack, name);
        assert(full_tag(stack[stack.len() - 1]) && !closing(stack[stack.len() - 1]));
        if name_of(stack.last()) != name {
            assert forall|i: int| 0 <= i < r.len() implies full_tag(#[trigger] r[i]) && !closing(
                r[i],
            ) by {
                if i < r.len() - 1 {
                    assert(r[i] == closed_last(d, name)[i]);
                }
            }
        }
    }
}

proof fn closed_last_shrinks(stack: Seq<Seq<char>>, name: Seq<char>)
    ensures
        closed_last(stack, name).len() <= stack.len(),
        closed_last(stack, name).len() == stack.len() ==> closed_last(stack, name) == stack,
    decreases stack.len(),
{
    if stack.len() > 0 {
        closed_last_shrinks(stack.drop_last(), name);
        assert(stack.drop_last().push(stack.last()) =~= stack);
    }
}

proof fn tag_written(p: Progress, tag: Seq<char>)
    requires
        progress_sound(p),
        full_tag(tag),
    ensures
        complete(p.cur + tag),
        open_after(tags(p.cur + tag)) == (if closing(tag) {
            closed_last(p.stack, name_of(tag))
        } else {
            p.stack.push(tag)
        }),
        visible(p.cur + tag) == visible(p.cur),
{
    reading_tag(tag);
    reading_concat(p.cur, tag);
    assert(tags(p.cur + tag) =~= tags(p.cur).push(tag));
    open_after_concat(tags(p.cur), tag);
    assert(visible(p.cur + tag) =~= visible(p.cur));
}

proof fn after_tag_sound(p: Progress, tag: Seq<char>, tight: bool, max: nat)
    requires
        progress_sound(p),
        full_tag(tag),
    ensures
        progress_sound(after_tag(p, tag, tight, max)),
        seen(after_tag(p, tag, tight, max)) == seen(p),
{
    let r = after_tag(p, tag, tight, max);
    if closing(tag) {
        tag_written(p, tag);
        close_tag_facts(tag);
        tag_written(p, close_tag(tag));
        closed_last_sound(p.stack, name_of(tag));
        closed_last_shrinks(p.stack, name_of(tag));
        assert(p.cur + Seq::<char>::empty() =~= p.cur);
        seen_splits(p);
        seen_splits(r);
    } else {
        flushed_sound(p);
        let full = utf8_len(p.cur) + utf8_len(tag) + utf8_len(closers(p.stack)) + utf8_len(
            close_tag(tag),
        ) > max;
        let q = if full && utf8_len(p.cur) > utf8_len(openers(p.stack)) {
            flushed(p)
        } else {
            p
        };
        tag_written(q, tag);
        assert(stack_sound(r.stack)) by {
            assert forall|i: int| 0 <= i < r.stack.len() implies full_tag(#[trigger] r.stack[i])
                && !closing(r.stack[i]) by {
                if i < q.stack.len() {
                    assert(r.stack[i] == q.stack[i]);
                }
            }
        }
        seen_splits(q);
        seen_splits(r);
    }
}

proof fn after_pieces_sound(t: Seq<Piece>, tight: bool, max: nat)
    requires
        all_sound(t),
    ensures
        progress_sound(after_pieces(t, tight, max)),
        seen(after_pieces(t, tight, max)) == ink(text_of(t)),
        after_pieces(t, tight, max).stack == open_after(tags_of(t)),
    decreases t.len(),
{
    let p = after_pieces(t, tight, max);
    if t.len() == 0 {
        assert(open_after(tags(p.cur)) =~= p.stack);
        assert(flat(p.chunks) + p.cur =~= Seq::<char>::empty());
    } else {
        let d = t.drop_last();
        assert(all_sound(d)) by {
            assert forall|i: int| 0 <= i < d.len() implies sound(#[trigger] d[i]) by {
                assert(d[i] == t[i]);
            }
        }
        after_pieces_sound(d, tight, max);
        assert(sound(t[t.len() - 1]));
        let before = after_pieces(d, tight, max);
        match t.last() {
            Piece::Tag(tag) => {
                after_tag_sound(before, tag, tight, max);
                open_after_concat(tags_of(d), tag);
            },
            Piece::Text(s) => {
                after_text_sound(before, s, max);
                ink_concat(text_of(d), s);
            },
        }
    }
}

/// Leaving tags out keeps all text.
proof fn shown_sound(t: Seq<Piece>, n: int, max: nat)
    requires
        all_sound(t),
        0 <= n <= t.len(),
    ensures
        all_sound(shown(t, n, max).pieces),
        text_of(shown(t, n, max).pieces) == text_of(t.take(n)),
    decreases n,
{
    if n > 0 {
        let f = shown(t, n - 1, max).pieces;
        let g = shown(t, n, max).pieces;
        shown_sound(t, n - 1, max);
        assert(sound(t[n - 1]));
        assert(f.push(t[n - 1]).drop_last() =~= f);
        assert(t.take(n).drop_last() =~= t.take(n - 1));
        assert forall|i: int| 0 <= i < g.len() implies sound(#[trigger] g[i]) by {
            if i < f.len() {
                assert(g[i] == f[i]);
            }
        }
    }
}

pub proof fn trimmed_tail(s: Seq<char>)
    requires
        complete(s),
    ensures
        complete(trim_end(s)),
        tags(trim_end(s)) == tags(s),
        ink(visible(trim_end(s))) == ink(visible(s)),
    decreases s.len(),
{
    if s.len() > 0 && white(s.last()) {
        let d = s.drop_last();
        assert(complete(d));
        trimmed_tail(d);
        assert(visible(s) == visible(d).push(s.last()));
        assert(visible(s).drop_last() =~= visible(d));
    }
}

// ---------------------------------------------------------------------------
// The laws
// ---------------------------------------------------------------------------

/// No visible character is lost or changed: leaving white space aside, the characters outside
/// the tags of all chunks are those of the HTML, in order.
pub proof fn chunks_keep_every_visible_character(html: Seq<char>, max: nat)
    requires
        complete(html),
    ensures
        ink(visible(flat(chunked(html, max)))) == ink(visible(html)),
{
    if utf8_len(html) <= max {
        let c = chunked(html, max);
        assert(c.drop_last() =~= Seq::<Seq<char>>::empty());
        assert(flat(c) =~= html) by {
            reveal_with_fuel(flat, 2);
        }
    } else {
        let t = pieces(html);
        pieces_read(html);
        if all_small(chunks_from(t, false, max), max) {
            from_pieces_sound(t, false, max);
        } else {
            let f = shown(t, t.len() as int, max).pieces;
            shown_sound(t, t.len() as int, max);
            assert(t.take(t.len() as int) =~= t);
            from_pieces_sound(f, true, max);
        }
    }
}

/// The chunks of some pieces hold all their text and leave no tag open.
proof fn from_pieces_sound(t: Seq<Piece>, tight: bool, max: nat)
    requires
        all_sound(t),
    ensures
        ink(visible(flat(chunks_from(t, tight, max)))) == ink(text_of(t)),
        forall|i: int|
            0 <= i < chunks_from(t, tight, max).len() ==> balanced(#[trigger] chunks_from(t, tight, max)[i]),
{
    let p = after_pieces(t, tight, max);
    after_pieces_sound(t, tight, max);
    let last = p.cur + closers(p.stack);
    closers_read(p.cur, p.stack);
    trimmed_tail(last);
    kept_sound(p.chunks, trim_end(last));
    seen_splits(p);
}

/// No chunk leaves a tag open. (HTML that fits as it is becomes the only chunk, so it must not
/// leave one open itself.)
pub proof fn chunks_are_balanced(html: Seq<char>, max: nat, i: int)
    requires
        complete(html),
        utf8_len(html) <= max ==> balanced(html),
        0 <= i < chunked(html, max).len(),
    ensures
        balanced(chunked(html, max)[i]),
{
    if utf8_len(html) > max {
        let t = pieces(html);
        pieces_read(html);
        if all_small(chunks_from(t, false, max), max) {
            from_pieces_sound(t, false, max);
        } else {
            shown_sound(t, t.len() as int, max);
            from_pieces_sound(shown(t, t.len() as int, max).pieces, true, max);
        }
    }
}

// ---------------------------------------------------------------------------
// Sizes
// ---------------------------------------------------------------------------

spec fn sized(p: Progress, max: nat) -> bool {
    &&& utf8_len(p.cur) + utf8_len(closers(p.stack)) <= max
    &&& forall|i: int| 0 <= i < p.chunks.len() ==> utf8_len(#[trigger] p.chunks[i]) <= max
}

proof fn kept_sized(chunks: Seq<Seq<char>>, chunk: Seq<char>, max: nat)
    requires
        forall|i: int| 0 <= i < chunks.len() ==> utf8_len(#[trigger] chunks[i]) <= max,
        utf8_len(chunk) <= max,
    ensures
        forall|i: int|
            0 <= i < kept(chunks, chunk).len() ==> utf8_len(#[trigger] kept(chunks, chunk)[i]) <= max,
{
    let k = kept(chunks, chunk);
    assert forall|i: int| 0 <= i < k.len() implies utf8_len(#[trigger] k[i]) <= max by {
        if i < chunks.len() {
            assert(k[i] == chunks[i]);
        }
    }
}

proof fn flushed_sized(p: Progress, max: nat)
    requires
        sized(p, max),
        leaves_room(p.stack, 0, max),
    ensures
        sized(flushed(p), max),
{
    utf8_len_concat(p.cur, closers(p.stack));
    kept_sized(p.chunks, p.cur + closers(p.stack), max);
}

proof fn fit_facts(s: Seq<char>, bytes: int)
    ensures
        0 <= fit(s, bytes) <= s.len(),
        bytes >= 0 ==> utf8_len(s.take(fit(s, bytes))) <= bytes,
        s.len() > 0 && bytes >= utf8_width(s[0]) ==> fit(s, bytes) >= 1,
    decreases s.len(),
{
    if s.len() > 0 && utf8_width(s[0]) <= bytes {
        let rest = s.drop_first();
        let left = bytes - utf8_width(s[0]);
        fit_facts(rest, left);
        let n = fit(rest, left);
        assert(s.take(n + 1) =~= seq![s[0]] + rest.take(n));
        utf8_len_concat(seq![s[0]], rest.take(n));
        assert(seq![s[0]].drop_last() =~= Seq::<char>::empty());
        assert(utf8_len(seq![s[0]]) == utf8_width(s[0])) by {
            reveal_with_fuel(utf8_len, 2);
        }
    } else {
        assert(s.take(0) =~= Seq::<char>::empty());
    }
}

proof fn prefix_smaller(s: Seq<char>, a: int, b: int)
    requires
        0 <= a <= b <= s.len(),
    ensures
        utf8_len(s.take(a)) <= utf8_len(s.take(b)),
{
    assert(s.take(b) =~= s.take(a) + s.subrange(a, b));
    utf8_len_concat(s.take(a), s.subrange(a, b));
}

proof fn newline_facts(s: Seq<char>, n: int)
    requires
        0 <= n <= s.len(),
    ensures
        0 <= crate::render::chunks::past_newline(s, n) <= n,
    decreases n,
{
    if n > 0 {
        newline_facts(s, n - 1);
    }
}

proof fn widest_of_rest(s: Seq<char>, n: int)
    requires
        0 <= n <= s.len(),
    ensures
        widest(s.skip(n)) <= widest(s) <= 4,
    decreases s.len(),
{
    if s.len() == 0 {
        assert(s.skip(n) =~= s);
    } else if n == 0 {
        assert(s.skip(0) =~= s);
        widest_of_rest(s.drop_first(), 0);
    } else {
        widest_of_rest(s.drop_first(), n - 1);
        assert(s.drop_first().skip(n - 1) =~= s.skip(n));
    }
}

proof fn after_text_sized(p: Progress, s: Seq<char>, max: nat)
    requires
        sized(p, max),
        leaves_room(p.stack, widest(s), max),
    ensures
        sized(after_text(p, s, max), max),
        after_text(p, s, max).stack == p.stack,
    decreases s.len(), (if fresh(p) { 0int } else { 1int }),
{
    cuts(p, s, max);
    utf8_len_bounds(s);
    let left = room(p, max);
    let cut = cut_at(s, left);
    if utf8_len(s) <= left {
        utf8_len_concat(p.cur, s);
    } else if cut > 0 {
        fit_facts(s, left);
        newline_facts(s, fit(s, left));
        prefix_smaller(s, cut, fit(s, left));
        utf8_len_concat(p.cur, s.take(cut));
        flushed_sized(with_text(p, s.take(cut)), max);
        widest_of_rest(s, cut);
        after_text_sized(flushed(with_text(p, s.take(cut))), s.skip(cut), max);
    } else if !fresh(p) {
        flushed_sized(p, max);
        after_text_sized(flushed(p), s, max);
    } else {
        fit_facts(s, left);
        newline_facts(s, fit(s, left));
        assert(false);
    }
}

proof fn close_tag_by_name(a: Seq<char>, b: Seq<char>)
    requires
        name_of(a) == name_of(b),
    ensures
        close_tag(a) == close_tag(b),
{
}

/// What closes an open tag takes that tag's share off what is reopened and closed.
proof fn closed_last_size(stack: Seq<Seq<char>>, tag: Seq<char>)
    ensures
        ({
            let rest = closed_last(stack, name_of(tag));
            &&& rest.len() <= stack.len()
            &&& utf8_len(openers(rest)) <= utf8_len(openers(stack))
            &&& utf8_len(closers(stack)) == utf8_len(closers(rest)) + (if rest.len() < stack.len() {
                utf8_len(close_tag(tag))
            } else {
                0
            })
        }),
    decreases stack.len(),
{
    if stack.len() > 0 {
        let d = stack.drop_last();
        let name = name_of(tag);
        utf8_len_concat(close_tag(stack.last()), closers(d));
        utf8_len_concat(openers(d), stack.last());
        if name_of(stack.last()) == name {
            close_tag_by_name(stack.last(), tag);
        } else {
            closed_last_size(d, tag);
            let r = closed_last(d, name);
            assert(r.push(stack.last()).drop_last() =~= r);
            utf8_len_concat(close_tag(stack.last()), closers(r));
            utf8_len_concat(openers(r), stack.last());
        }
    }
}

proof fn after_tag_sized(p: Progress, tag: Seq<char>, max: nat)
    requires
        sized(p, max),
        leaves_room(p.stack, 0, max),
        !closing(tag) ==> leaves_room(p.stack.push(tag), 0, max),
    ensures
        sized(after_tag(p, tag, true, max), max),
{
    utf8_len_concat(p.cur, tag);
    if closing(tag) {
        closed_last_size(p.stack, tag);
        utf8_len_concat(p.cur, written_close(p, tag, true, max));
    } else {
        flushed_sized(p, max);
        let next = p.stack.push(tag);
        assert(next.drop_last() =~= p.stack);
        utf8_len_concat(close_tag(tag), closers(p.stack));
        utf8_len_concat(openers(p.stack), tag);
    }
}

/// How many of the open tags have a name.
spec fn named(open: Seq<Opening>, name: Seq<char>) -> nat
    decreases open.len(),
{
    if open.len() == 0 {
        0
    } else {
        named(open.drop_last(), name) + (if name_of(open.last().tag) == name {
            1nat
        } else {
            0
        })
    }
}

/// How many open tags of its name stand from a tag on.
spec fn depth(open: Seq<Opening>, i: int) -> nat {
    named(open.skip(i), name_of(open[i].tag))
}

/// The tag at a position and the shown tags around it leave room for what stands under it.
spec fn roomy_at(open: Seq<Opening>, i: int, rest: Seq<Piece>, max: nat) -> bool {
    open[i].shown ==> leaves_room(
        shown_tags(open.take(i + 1)),
        widest_under(rest, name_of(open[i].tag), depth(open, i)),
        max,
    )
}

spec fn roomy(open: Seq<Opening>, rest: Seq<Piece>, max: nat) -> bool {
    forall|i: int| 0 <= i < open.len() ==> #[trigger] roomy_at(open, i, rest, max)
}

/// The shown tags leave room for the text that comes next, and for nothing at all.
proof fn room_for_text(open: Seq<Opening>, rest: Seq<Piece>, max: nat)
    requires
        roomy(open, rest, max),
        max >= 4,
    ensures
        leaves_room(shown_tags(open), 0, max),
        rest.len() > 0 ==> (rest[0] matches Piece::Text(s) ==> leaves_room(shown_tags(open), widest(s), max)),
{
    let i = last_shown(open);
    if rest.len() > 0 {
        if let Piece::Text(s) = rest[0] {
            widest_of_rest(s, 0);
        }
    }
    if i >= 0 {
        assert(roomy_at(open, i, rest, max));
    } else {
        assert(utf8_len(openers(shown_tags(open))) == 0);
    }
}

proof fn last_shown(open: Seq<Opening>) -> (i: int)
    ensures
        -1 <= i < open.len(),
        i < 0 ==> shown_tags(open).len() == 0,
        i >= 0 ==> open[i].shown && shown_tags(open.take(i + 1)) == shown_tags(open),
    decreases open.len(),
{
    if open.len() == 0 {
        -1
    } else if open.last().shown {
        assert(open.take(open.len() as int) =~= open);
        open.len() - 1
    } else {
        let i = last_shown(open.drop_last());
        if i >= 0 {
            assert(open.drop_last().take(i + 1) =~= open.take(i + 1));
        }
        i
    }
}

proof fn named_push(open: Seq<Opening>, e: Opening, name: Seq<char>)
    ensures
        named(open.push(e), name) == named(open, name) + (if name_of(e.tag) == name {
            1nat
        } else {
            0
        }),
{
    assert(open.push(e).drop_last() =~= open);
}

/// Taking the last tag of a name off takes one off the tags of that name and none of another.
proof fn named_remove(open: Seq<Opening>, name: Seq<char>, other: Seq<char>, from: int)
    requires
        0 <= from <= last_named(open, name),
    ensures
        ({
            let j = last_named(open, name);
            &&& j < open.len()
            &&& name_of(open[j].tag) == name
            &&& named(open.skip(from), other) == named(open.remove(j).skip(from), other) + (if other == name {
                1nat
            } else {
                0
            })
        }),
    decreases open.len(),
{
    let d = open.drop_last();
    let j = last_named(open, name);
    last_named_bounds(open, name);
    assert(open.skip(from).drop_last() =~= d.skip(from));
    if j == open.len() - 1 {
        assert(open.remove(j).skip(from) =~= d.skip(from));
    } else {
        named_remove(d, name, other, from);
        let r = open.remove(j).skip(from);
        assert(r.drop_last() =~= d.remove(j).skip(from));
        assert(r.last() == open.last());
    }
}

proof fn last_named_bounds(open: Seq<Opening>, name: Seq<char>)
    ensures
        -1 <= last_named(open, name) < open.len(),
        last_named(open, name) >= 0 ==> name_of(open[last_named(open, name)].tag) == name,
        forall|k: int| last_named(open, name) < k < open.len() ==> name_of((#[trigger] open[k]).tag) != name,
    decreases open.len(),
{
    if open.len() > 0 {
        let d = open.drop_last();
        last_named_bounds(d, name);
        if name_of(open.last().tag) != name {
            assert forall|k: int| last_named(open, name) < k < open.len() implies name_of(
                (#[trigger] open[k]).tag,
            ) != name by {
                if k < d.len() {
                    assert(open[k] == d[k]);
                }
            }
        }
    }
}

/// A tag counts itself, and a tag around another one of its name counts both.
proof fn depth_counts(open: Seq<Opening>, i: int, j: int)
    requires
        0 <= i <= j < open.len(),
        name_of(open[i].tag) == name_of(open[j].tag),
    ensures
        depth(open, i) >= (if i < j {
            2nat
        } else {
            1
        }),
    decreases open.len(),
{
    let name = name_of(open[i].tag);
    let d = open.drop_last();
    assert(open.skip(i).drop_last() =~= d.skip(i));
    if j < open.len() - 1 {
        depth_counts(d, i, j);
    } else if i < j {
        depth_counts(d, i, i);
    }
}

/// Fewer shown tags need no more room.
proof fn fewer_tags(open: Seq<Opening>, j: int, bytes: nat, max: nat)
    requires
        0 <= j < open.len(),
        leaves_room(shown_tags(open), bytes, max),
    ensures
        leaves_room(shown_tags(open.remove(j)), bytes, max),
{
    fewer_bytes(open, j);
}

proof fn fewer_bytes(open: Seq<Opening>, j: int)
    requires
        0 <= j < open.len(),
    ensures
        utf8_len(openers(shown_tags(open.remove(j)))) <= utf8_len(openers(shown_tags(open))),
        utf8_len(closers(shown_tags(open.remove(j)))) <= utf8_len(closers(shown_tags(open))),
    decreases open.len(),
{
    let d = open.drop_last();
    let e = open.last();
    let a = shown_tags(d);
    if e.shown {
        assert(a.push(e.tag).drop_last() =~= a);
        utf8_len_concat(openers(a), e.tag);
        utf8_len_concat(close_tag(e.tag), closers(a));
    }
    if j == open.len() - 1 {
        assert(open.remove(j) =~= d);
    } else {
        fewer_bytes(d, j);
        let r = open.remove(j);
        let b = shown_tags(d.remove(j));
        assert(r.drop_last() =~= d.remove(j));
        assert(r.last() == e);
        if e.shown {
            assert(b.push(e.tag).drop_last() =~= b);
            utf8_len_concat(openers(b), e.tag);
            utf8_len_concat(close_tag(e.tag), closers(b));
        }
    }
}

/// The open tags leave room for what stands under them after one more piece.
proof fn stays_roomy(open: Seq<Opening>, rest: Seq<Piece>, max: nat)
    requires
        roomy(open, rest, max),
        rest.len() > 0,
    ensures
        rest[0] is Text ==> roomy(open, rest.drop_first(), max),
        rest[0] matches Piece::Tag(tag) ==> roomy(
            open_then(open, tag, rest.drop_first(), max),
            rest.drop_first(),
            max,
        ),
{
    let next = rest.drop_first();
    match rest[0] {
        Piece::Text(_) => {
            assert forall|i: int| 0 <= i < open.len() implies #[trigger] roomy_at(open, i, next, max) by {
                assert(roomy_at(open, i, rest, max));
            }
        },
        Piece::Tag(tag) => if closing(tag) {
            close_stays_roomy(open, tag, rest, max);
        } else {
            let e = Opening { tag, shown: is_shown(open, tag, next, max) };
            let after = open.push(e);
            assert forall|i: int| 0 <= i < after.len() implies #[trigger] roomy_at(after, i, next, max) by {
                assert(after.take(open.len() as int) =~= open);
                if i < open.len() {
                    assert(roomy_at(open, i, rest, max));
                    assert(after.take(i + 1) =~= open.take(i + 1));
                    assert(after.skip(i) =~= open.skip(i).push(e));
                    named_push(open.skip(i), e, name_of(open[i].tag));
                } else {
                    assert(after.take(i + 1) =~= after);
                    assert(after.drop_last() =~= open);
                    assert(after.skip(i) =~= Seq::<Opening>::empty().push(e));
                    named_push(Seq::empty(), e, name_of(tag));
                }
            }
        },
    }
}

proof fn close_stays_roomy(open: Seq<Opening>, tag: Seq<char>, rest: Seq<Piece>, max: nat)
    requires
        roomy(open, rest, max),
        rest.len() > 0,
        rest[0] == Piece::Tag(tag),
        closing(tag),
    ensures
        roomy(open_then(open, tag, rest.drop_first(), max), rest.drop_first(), max),
{
    let next = rest.drop_first();
    let name = name_of(tag);
    let j = last_named(open, name);
    let after = open_then(open, tag, next, max);
    last_named_bounds(open, name);
    assert forall|i: int| 0 <= i < after.len() implies #[trigger] roomy_at(after, i, next, max) by {
        if j < 0 {
            assert(roomy_at(open, i, rest, max));
            assert(name_of(open[i].tag) != name);
        } else if i < j {
            assert(roomy_at(open, i, rest, max));
            assert(after[i] == open[i]);
            assert(after.take(i + 1) =~= open.take(i + 1));
            named_remove(open, name, name_of(open[i].tag), i);
            if name_of(open[i].tag) == name {
                depth_counts(open, i, j);
            }
        } else {
            let k = i + 1;
            assert(roomy_at(open, k, rest, max));
            assert(after[i] == open[k]);
            assert(name_of(open[k].tag) != name);
            assert(after.skip(i) =~= open.skip(k));
            let wide = widest_under(rest, name_of(open[k].tag), depth(open, k));
            assert(after.take(i + 1) =~= open.take(k + 1).remove(j));
            if open[k].shown {
                fewer_tags(open.take(k + 1), j, wide, max);
            }
        }
    }
}

proof fn shown_sized(t: Seq<Piece>, n: int, max: nat)
    requires
        max >= 4,
        0 <= n <= t.len(),
    ensures
        sized(after_pieces(shown(t, n, max).pieces, true, max), max),
        roomy(shown(t, n, max).open, t.skip(n), max),
    decreases n,
{
    if n == 0 {
        assert(utf8_len(Seq::<char>::empty()) == 0);
    } else {
        let f = shown(t, n - 1, max);
        let rest = t.skip(n - 1);
        let before = after_pieces(f.pieces, true, max);
        shown_sized(t, n - 1, max);
        shown_tags_are_open(t, n - 1, true, max);
        assert(rest.drop_first() =~= t.skip(n));
        assert(rest[0] == t[n - 1]);
        room_for_text(f.open, rest, max);
        stays_roomy(f.open, rest, max);
        assert(f.pieces.push(t[n - 1]).drop_last() =~= f.pieces);
        match t[n - 1] {
            Piece::Tag(tag) => {
                if is_shown(f.open, tag, t.skip(n), max) {
                    after_tag_sized(before, tag, max);
                }
            },
            Piece::Text(s) => after_text_sized(before, s, max),
        }
    }
}

proof fn trim_end_smaller(s: Seq<char>)
    ensures
        utf8_len(trim_end(s)) <= utf8_len(s),
    decreases s.len(),
{
    if s.len() > 0 && white(s.last()) {
        trim_end_smaller(s.drop_last());
    }
}

/// No chunk has more than `max` bytes, whatever the HTML, as long as one character fits.
pub proof fn chunks_are_small(html: Seq<char>, max: nat, i: int)
    requires
        max >= 4,
        0 <= i < chunked(html, max).len(),
    ensures
        utf8_len(chunked(html, max)[i]) <= max,
{
    if utf8_len(html) > max {
        let t = pieces(html);
        if !all_small(chunks_from(t, false, max), max) {
            let p = after_pieces(shown(t, t.len() as int, max).pieces, true, max);
            shown_sized(t, t.len() as int, max);
            let last = p.cur + closers(p.stack);
            utf8_len_concat(p.cur, closers(p.stack));
            trim_end_smaller(last);
            kept_sized(p.chunks, trim_end(last), max);
        }
    }
}

/// No tag is left out of HTML whose chunks are small enough with all of them.
pub proof fn tags_stay_where_they_fit(html: Seq<char>, max: nat)
    requires
        utf8_len(html) > max,
        all_small(chunks_from(pieces(html), false, max), max),
    ensures
        chunked(html, max) == chunks_from(pieces(html), false, max),
{
}

// ---------------------------------------------------------------------------
// Nesting
// ---------------------------------------------------------------------------

/// The tags left open after a run of tags; `None` where a closing tag does not close the
/// innermost open one.
pub open spec fn nest(t: Seq<Seq<char>>) -> Option<Seq<Seq<char>>>
    decreases t.len(),
{
    if t.len() == 0 {
        Some(Seq::empty())
    } else {
        match nest(t.drop_last()) {
            None => None,
            Some(open) => if !closing(t.last()) {
                Some(open.push(t.last()))
            } else if open.len() > 0 && name_of(open.last()) == name_of(t.last()) {
                Some(open.drop_last())
            } else {
                None
            },
        }
    }
}

/// HTML whose tags nest: every tag is closed, and every closing tag closes the innermost open
/// one.
pub open spec fn well_nested(html: Seq<char>) -> bool {
    complete(html) && nest(tags(html)) == Some(Seq::<Seq<char>>::empty())
}

/// HTML whose tags nest leaves none open.
pub proof fn nested_html_is_balanced(html: Seq<char>)
    requires
        well_nested(html),
    ensures
        balanced(html),
{
    nest_is_open(tags(html));
}

pub(crate) proof fn nest_is_open(t: Seq<Seq<char>>)
    requires
        nest(t) is Some,
    ensures
        open_after(t) == nest(t)->0,
    decreases t.len(),
{
    if t.len() > 0 {
        nest_is_open(t.drop_last());
    }
}

proof fn nest_push(a: Seq<Seq<char>>, t: Seq<char>)
    ensures
        a.push(t).drop_last() == a,
{
    assert(a.push(t).drop_last() =~= a);
}

spec fn progress_nested(p: Progress) -> bool {
    &&& progress_sound(p)
    &&& nest(tags(p.cur)) == Some(p.stack)
    &&& forall|i: int| 0 <= i < p.chunks.len() ==> well_nested(#[trigger] p.chunks[i])
}

proof fn openers_nest(stack: Seq<Seq<char>>)
    requires
        stack_sound(stack),
    ensures
        nest(stack) == Some(stack),
    decreases stack.len(),
{
    if stack.len() > 0 {
        let d = stack.drop_last();
        assert(stack_sound(d)) by {
            assert forall|i: int| 0 <= i < d.len() implies full_tag(#[trigger] d[i]) && !closing(
                d[i],
            ) by {
                assert(d[i] == stack[i]);
            }
        }
        openers_nest(d);
        assert(!closing(stack[stack.len() - 1]));
        assert(d.push(stack.last()) =~= stack);
    } else {
        assert(stack =~= Seq::<Seq<char>>::empty());
    }
}

proof fn closers_nest(cur: Seq<char>, stack: Seq<Seq<char>>)
    requires
        stack_sound(stack),
        complete(cur),
        nest(tags(cur)) == Some(stack),
    ensures
        well_nested(cur + closers(stack)),
    decreases stack.len(),
{
    if stack.len() == 0 {
        assert(cur + closers(stack) =~= cur);
        assert(stack =~= Seq::<Seq<char>>::empty());
    } else {
        let t = stack.last();
        let d = stack.drop_last();
        assert(full_tag(stack[stack.len() - 1]));
        close_tag_facts(t);
        reading_tag(close_tag(t));
        reading_concat(cur, close_tag(t));
        let next = cur + close_tag(t);
        assert(tags(next) =~= tags(cur).push(close_tag(t)));
        nest_push(tags(cur), close_tag(t));
        assert(stack_sound(d)) by {
            assert forall|i: int| 0 <= i < d.len() implies full_tag(#[trigger] d[i]) && !closing(
                d[i],
            ) by {
                assert(d[i] == stack[i]);
            }
        }
        closers_nest(next, d);
        assert(next + closers(d) =~= cur + closers(stack));
    }
}

proof fn kept_nested(chunks: Seq<Seq<char>>, chunk: Seq<char>)
    requires
        forall|i: int| 0 <= i < chunks.len() ==> well_nested(#[trigger] chunks[i]),
        well_nested(chunk),
    ensures
        forall|i: int|
            0 <= i < kept(chunks, chunk).len() ==> well_nested(#[trigger] kept(chunks, chunk)[i]),
{
    let k = kept(chunks, chunk);
    assert forall|i: int| 0 <= i < k.len() implies well_nested(#[trigger] k[i]) by {
        if i < chunks.len() {
            assert(k[i] == chunks[i]);
        }
    }
}

proof fn flushed_nested(p: Progress)
    requires
        progress_nested(p),
    ensures
        progress_nested(flushed(p)),
{
    flushed_sound(p);
    closers_nest(p.cur, p.stack);
    kept_nested(p.chunks, p.cur + closers(p.stack));
    openers_read(p.stack);
    openers_nest(p.stack);
}

proof fn text_nested(p: Progress, s: Seq<char>)
    requires
        progress_nested(p),
        plain_text(s),
    ensures
        progress_nested(with_text(p, s)),
{
    text_added(p, s);
    reading_plain(s);
    reading_concat(p.cur, s);
    assert(tags(p.cur + s) =~= tags(p.cur));
}

proof fn after_text_nested(p: Progress, s: Seq<char>, max: nat)
    requires
        progress_nested(p),
        plain_text(s),
    ensures
        progress_nested(after_text(p, s, max)),
    decreases s.len(), (if fresh(p) { 0int } else { 1int }),
{
    cuts(p, s, max);
    let cut = cut_at(s, room(p, max));
    if utf8_len(s) <= room(p, max) {
        text_nested(p, s);
    } else if cut > 0 {
        cut_sound(p, s, cut);
        text_nested(p, s.take(cut));
        flushed_nested(with_text(p, s.take(cut)));
        after_text_nested(flushed(with_text(p, s.take(cut))), s.skip(cut), max);
    } else if !fresh(p) {
        flushed_nested(p);
        after_text_nested(flushed(p), s, max);
    } else {
        let n = forced(p, s, max);
        cut_sound(p, s, n);
        text_nested(p, s.take(n));
        flushed_nested(with_text(p, s.take(n)));
        after_text_nested(flushed(with_text(p, s.take(n))), s.skip(n), max);
    }
}

proof fn tag_nests(p: Progress, tag: Seq<char>)
    requires
        progress_nested(p),
        full_tag(tag),
    ensures
        tags(p.cur + tag) == tags(p.cur).push(tag),
        nest(tags(p.cur + tag)) == (if !closing(tag) {
            Some(p.stack.push(tag))
        } else if p.stack.len() > 0 && name_of(p.stack.last()) == name_of(tag) {
            Some(p.stack.drop_last())
        } else {
            None
        }),
{
    reading_tag(tag);
    reading_concat(p.cur, tag);
    assert(tags(p.cur + tag) =~= tags(p.cur).push(tag));
    nest_push(tags(p.cur), tag);
}

proof fn after_tag_nested(p: Progress, tag: Seq<char>, tight: bool, max: nat)
    requires
        progress_nested(p),
        full_tag(tag),
        closing(tag) ==> p.stack.len() > 0 && name_of(p.stack.last()) == name_of(tag),
    ensures
        progress_nested(after_tag(p, tag, tight, max)),
{
    after_tag_sound(p, tag, tight, max);
    if closing(tag) {
        close_tag_facts(tag);
        tag_nests(p, tag);
        tag_nests(p, close_tag(tag));
    } else {
        flushed_nested(p);
        tag_nests(p, tag);
        tag_nests(flushed(p), tag);
    }
}

proof fn after_pieces_nested(t: Seq<Piece>, tight: bool, max: nat)
    requires
        all_sound(t),
        nest(tags_of(t)) is Some,
    ensures
        progress_nested(after_pieces(t, tight, max)),
        nest(tags_of(t)) == Some(after_pieces(t, tight, max).stack),
    decreases t.len(),
{
    after_pieces_sound(t, tight, max);
    nest_is_open(tags_of(t));
    if t.len() > 0 {
        let d = t.drop_last();
        assert(all_sound(d)) by {
            assert forall|i: int| 0 <= i < d.len() implies sound(#[trigger] d[i]) by {
                assert(d[i] == t[i]);
            }
        }
        assert(sound(t[t.len() - 1]));
        match t.last() {
            Piece::Tag(tag) => {
                nest_push(tags_of(d), tag);
                after_pieces_nested(d, tight, max);
                after_tag_nested(after_pieces(d, tight, max), tag, tight, max);
            },
            Piece::Text(s) => {
                after_pieces_nested(d, tight, max);
                after_text_nested(after_pieces(d, tight, max), s, max);
            },
        }
    }
}

spec fn opened_tags(open: Seq<Opening>) -> Seq<Seq<char>> {
    open.map_values(|o: Opening| o.tag)
}

/// Leaving tags out with what closes them keeps the nesting.
proof fn shown_nested(t: Seq<Piece>, n: int, max: nat)
    requires
        0 <= n <= t.len(),
        nest(tags_of(t.take(n))) is Some,
    ensures
        nest(tags_of(t.take(n))) == Some(opened_tags(shown(t, n, max).open)),
        nest(tags_of(shown(t, n, max).pieces)) == Some(shown_tags(shown(t, n, max).open)),
    decreases n,
{
    if n == 0 {
        assert(opened_tags(shown(t, n, max).open) =~= Seq::empty());
    } else {
        let d = t.take(n - 1);
        let f = shown(t, n - 1, max);
        let g = shown(t, n, max);
        assert(t.take(n).drop_last() =~= d);
        assert(t.take(n).last() == t[n - 1]);
        assert(f.pieces.push(t[n - 1]).drop_last() =~= f.pieces);
        match t[n - 1] {
            Piece::Tag(tag) => {
                nest_push(tags_of(d), tag);
                nest_push(tags_of(f.pieces), tag);
                shown_nested(t, n - 1, max);
                if closing(tag) {
                    let k = f.open.len() as int;
                    assert(opened_tags(f.open).last() == f.open.last().tag);
                    assert(last_named(f.open, name_of(tag)) == k - 1);
                    assert(f.open.remove(k - 1) =~= f.open.drop_last());
                    assert(opened_tags(g.open) =~= opened_tags(f.open).drop_last());
                    if f.open.last().shown {
                        assert(shown_tags(f.open).drop_last() =~= shown_tags(f.open.drop_last()));
                    }
                } else {
                    assert(g.open.drop_last() =~= f.open);
                    assert(opened_tags(g.open) =~= opened_tags(f.open).push(tag));
                }
            },
            Piece::Text(_) => shown_nested(t, n - 1, max),
        }
    }
}

proof fn from_pieces_nested(t: Seq<Piece>, tight: bool, max: nat)
    requires
        all_sound(t),
        nest(tags_of(t)) is Some,
    ensures
        forall|i: int|
            0 <= i < chunks_from(t, tight, max).len() ==> well_nested(#[trigger] chunks_from(t, tight, max)[i]),
{
    let p = after_pieces(t, tight, max);
    after_pieces_nested(t, tight, max);
    let last = p.cur + closers(p.stack);
    closers_nest(p.cur, p.stack);
    trimmed_tail(last);
    kept_nested(p.chunks, trim_end(last));
}

/// The tags of each chunk nest where those of the HTML do: every tag is closed in its chunk, and
/// every closing tag closes the innermost open one.
pub proof fn chunks_nest(html: Seq<char>, max: nat, i: int)
    requires
        well_nested(html),
        0 <= i < chunked(html, max).len(),
    ensures
        well_nested(chunked(html, max)[i]),
{
    if utf8_len(html) > max {
        let t = pieces(html);
        let n = t.len() as int;
        pieces_read(html);
        if all_small(chunks_from(t, false, max), max) {
            from_pieces_nested(t, false, max);
        } else {
            assert(t.take(n) =~= t);
            shown_sound(t, n, max);
            shown_nested(t, n, max);
            from_pieces_nested(shown(t, n, max).pieces, true, max);
        }
    }
}

// ---------------------------------------------------------------------------
// Blank chunks
// ---------------------------------------------------------------------------

spec fn none_blank(chunks: Seq<Seq<char>>) -> bool {
    forall|i: int| 0 <= i < chunks.len() ==> !blank(#[trigger] chunks[i])
}

proof fn kept_not_blank(chunks: Seq<Seq<char>>, chunk: Seq<char>)
    requires
        none_blank(chunks),
    ensures
        none_blank(kept(chunks, chunk)),
{
    let k = kept(chunks, chunk);
    assert forall|i: int| 0 <= i < k.len() implies !blank(#[trigger] k[i]) by {
        if i < chunks.len() {
            assert(k[i] == chunks[i]);
        }
    }
}

proof fn after_text_not_blank(p: Progress, s: Seq<char>, max: nat)
    requires
        none_blank(p.chunks),
    ensures
        none_blank(after_text(p, s, max).chunks),
    decreases s.len(), (if fresh(p) { 0int } else { 1int }),
{
    cuts(p, s, max);
    let cut = cut_at(s, room(p, max));
    if utf8_len(s) <= room(p, max) {
    } else if cut > 0 {
        let q = with_text(p, s.take(cut));
        kept_not_blank(q.chunks, q.cur + closers(q.stack));
        after_text_not_blank(flushed(q), s.skip(cut), max);
    } else if !fresh(p) {
        kept_not_blank(p.chunks, p.cur + closers(p.stack));
        after_text_not_blank(flushed(p), s, max);
    } else {
        let n = forced(p, s, max);
        let q = with_text(p, s.take(n));
        kept_not_blank(q.chunks, q.cur + closers(q.stack));
        after_text_not_blank(flushed(q), s.skip(n), max);
    }
}

proof fn after_pieces_not_blank(t: Seq<Piece>, tight: bool, max: nat)
    ensures
        none_blank(after_pieces(t, tight, max).chunks),
    decreases t.len(),
{
    if t.len() > 0 {
        let p = after_pieces(t.drop_last(), tight, max);
        after_pieces_not_blank(t.drop_last(), tight, max);
        match t.last() {
            Piece::Tag(_) => kept_not_blank(p.chunks, p.cur + closers(p.stack)),
            Piece::Text(s) => after_text_not_blank(p, s, max),
        }
    }
}

/// No chunk of HTML that is not blank is blank.
pub proof fn chunks_are_not_blank(html: Seq<char>, max: nat, i: int)
    requires
        !blank(html),
        0 <= i < chunked(html, max).len(),
    ensures
        !blank(chunked(html, max)[i]),
{
    if utf8_len(html) > max {
        let t = pieces(html);
        let f = shown(t, t.len() as int, max).pieces;
        let a = after_pieces(t, false, max);
        let b = after_pieces(f, true, max);
        after_pieces_not_blank(t, false, max);
        after_pieces_not_blank(f, true, max);
        kept_not_blank(a.chunks, trim_end(a.cur + closers(a.stack)));
        kept_not_blank(b.chunks, trim_end(b.cur + closers(b.stack)));
    }
}

/// Trimmed text that is not empty is not blank.
pub proof fn trimmed_text_is_not_blank(s: Seq<char>)
    requires
        trimmed(s).len() > 0,
    ensures
        !blank(trimmed(s)),
{
    ends_in_ink(trim_start(s));
    if blank(trimmed(s)) {
        all_white_when_blank(trimmed(s));
        assert(white(trimmed(s)[trimmed(s).len() - 1]));
    }
}

proof fn ends_in_ink(s: Seq<char>)
    ensures
        trim_end(s).len() > 0 ==> !white(trim_end(s).last()),
    decreases s.len(),
{
    if s.len() > 0 && white(s.last()) {
        ends_in_ink(s.drop_last());
    }
}

// ---------------------------------------------------------------------------
// What a chunk shows
// ---------------------------------------------------------------------------

/// Every finished chunk shows a part of the text, as it stands there, and the chunk in progress its end.
spec fn shows_parts(p: Progress, text: Seq<char>) -> bool {
    &&& forall|i: int| 0 <= i < p.chunks.len() ==> has(text, visible(#[trigger] p.chunks[i]))
    &&& visible(p.cur).len() <= text.len()
    &&& text.skip(text.len() - visible(p.cur).len()) == visible(p.cur)
}

proof fn ends_are_parts(text: Seq<char>, end: Seq<char>)
    requires
        end.len() <= text.len(),
        text.skip(text.len() - end.len()) == end,
    ensures
        has(text, end),
{
    let n = text.len() - end.len();
    assert(text.subrange(n, n + end.len()) =~= text.skip(n));
    assert(occurs_at(text, end, n));
}

proof fn flushed_shows_parts(p: Progress, text: Seq<char>)
    requires
        progress_sound(p),
        shows_parts(p, text),
    ensures
        shows_parts(flushed(p), text),
{
    let q = flushed(p);
    let chunk = p.cur + closers(p.stack);
    closers_read(p.cur, p.stack);
    openers_read(p.stack);
    ends_are_parts(text, visible(p.cur));
    assert forall|i: int| 0 <= i < q.chunks.len() implies has(text, visible(#[trigger] q.chunks[i])) by {
        if i < p.chunks.len() {
            assert(q.chunks[i] == p.chunks[i]);
        } else {
            assert(q.chunks[i] == chunk);
        }
    }
    assert(text.skip(text.len() as int) =~= Seq::<char>::empty());
}

proof fn text_shows_parts(p: Progress, s: Seq<char>, text: Seq<char>)
    requires
        progress_sound(p),
        plain_text(s),
        shows_parts(p, text),
    ensures
        shows_parts(with_text(p, s), text + s),
{
    let q = with_text(p, s);
    let all = text + s;
    reading_plain(s);
    reading_concat(p.cur, s);
    assert forall|i: int| 0 <= i < q.chunks.len() implies has(all, visible(#[trigger] q.chunks[i])) by {
        assert(has(text, visible(p.chunks[i])));
        longer_texts_hold_as_much(Seq::empty(), text, s, visible(p.chunks[i]));
        assert(Seq::<char>::empty() + text + s =~= all);
    }
    assert(all.skip(all.len() - visible(q.cur).len()) =~= visible(q.cur)) by {
        let v = visible(p.cur);
        assert(all.skip(all.len() - visible(q.cur).len()) =~= text.skip(text.len() - v.len()) + s);
    }
}

proof fn after_text_shows_parts(p: Progress, s: Seq<char>, max: nat, text: Seq<char>)
    requires
        progress_sound(p),
        plain_text(s),
        shows_parts(p, text),
    ensures
        shows_parts(after_text(p, s, max), text + s),
    decreases s.len(), (if fresh(p) { 0int } else { 1int }),
{
    cuts(p, s, max);
    let cut = cut_at(s, room(p, max));
    if utf8_len(s) <= room(p, max) {
        text_shows_parts(p, s, text);
    } else if cut > 0 {
        cut_shows_parts(p, s, cut, text);
        after_text_shows_parts(flushed(with_text(p, s.take(cut))), s.skip(cut), max, text + s.take(cut));
        assert(text + s.take(cut) + s.skip(cut) =~= text + s);
    } else if !fresh(p) {
        flushed_sound(p);
        flushed_shows_parts(p, text);
        after_text_shows_parts(flushed(p), s, max, text);
    } else {
        let n = forced(p, s, max);
        cut_shows_parts(p, s, n, text);
        after_text_shows_parts(flushed(with_text(p, s.take(n))), s.skip(n), max, text + s.take(n));
        assert(text + s.take(n) + s.skip(n) =~= text + s);
    }
}

proof fn cut_shows_parts(p: Progress, s: Seq<char>, n: int, text: Seq<char>)
    requires
        progress_sound(p),
        plain_text(s),
        shows_parts(p, text),
        0 <= n <= s.len(),
    ensures
        progress_sound(flushed(with_text(p, s.take(n)))),
        plain_text(s.skip(n)),
        shows_parts(flushed(with_text(p, s.take(n))), text + s.take(n)),
{
    cut_sound(p, s, n);
    text_added(p, s.take(n));
    text_shows_parts(p, s.take(n), text);
    flushed_shows_parts(with_text(p, s.take(n)), text + s.take(n));
}

proof fn after_tag_shows_parts(p: Progress, tag: Seq<char>, tight: bool, max: nat, text: Seq<char>)
    requires
        progress_sound(p),
        full_tag(tag),
        shows_parts(p, text),
    ensures
        shows_parts(after_tag(p, tag, tight, max), text),
{
    if closing(tag) {
        tag_written(p, tag);
        close_tag_facts(tag);
        tag_written(p, close_tag(tag));
        assert(p.cur + Seq::<char>::empty() =~= p.cur);
    } else {
        flushed_sound(p);
        flushed_shows_parts(p, text);
        let full = utf8_len(p.cur) + utf8_len(tag) + utf8_len(closers(p.stack)) + utf8_len(
            close_tag(tag),
        ) > max;
        let q = if full && utf8_len(p.cur) > utf8_len(openers(p.stack)) {
            flushed(p)
        } else {
            p
        };
        tag_written(q, tag);
    }
}

proof fn after_pieces_show_parts(t: Seq<Piece>, tight: bool, max: nat)
    requires
        all_sound(t),
    ensures
        shows_parts(after_pieces(t, tight, max), text_of(t)),
    decreases t.len(),
{
    if t.len() == 0 {
        assert(text_of(t).skip(0) =~= Seq::<char>::empty());
    } else {
        let d = t.drop_last();
        assert forall|i: int| 0 <= i < d.len() implies sound(#[trigger] d[i]) by {
            assert(d[i] == t[i]);
        }
        after_pieces_sound(d, tight, max);
        after_pieces_show_parts(d, tight, max);
        assert(sound(t[t.len() - 1]));
        match t.last() {
            Piece::Tag(tag) => {
                after_tag_shows_parts(after_pieces(d, tight, max), tag, tight, max, text_of(d));
            },
            Piece::Text(s) => {
                after_text_shows_parts(after_pieces(d, tight, max), s, max, text_of(d));
            },
        }
    }
}

proof fn trimmed_tail_shows_less(s: Seq<char>)
    requires
        complete(s),
    ensures
        visible(trim_end(s)).len() <= visible(s).len(),
        visible(s).take(visible(trim_end(s)).len() as int) == visible(trim_end(s)),
    decreases s.len(),
{
    if s.len() > 0 && white(s.last()) {
        let d = s.drop_last();
        assert(complete(d));
        trimmed_tail_shows_less(d);
        assert(visible(s) == visible(d).push(s.last()));
        let n = visible(trim_end(s)).len() as int;
        assert(visible(s).take(n) =~= visible(d).take(n));
    } else {
        assert(visible(s).take(visible(s).len() as int) =~= visible(s));
    }
}

proof fn chunks_from_show_parts(t: Seq<Piece>, tight: bool, max: nat, i: int)
    requires
        all_sound(t),
        0 <= i < chunks_from(t, tight, max).len(),
    ensures
        has(text_of(t), visible(chunks_from(t, tight, max)[i])),
{
    let p = after_pieces(t, tight, max);
    let c = chunks_from(t, tight, max);
    after_pieces_sound(t, tight, max);
    after_pieces_show_parts(t, tight, max);
    if i < p.chunks.len() {
        assert(c[i] == p.chunks[i]);
    } else {
        let last = p.cur + closers(p.stack);
        closers_read(p.cur, p.stack);
        trimmed_tail_shows_less(last);
        let (v, w) = (visible(p.cur), visible(trim_end(last)));
        let text = text_of(t);
        let n = text.len() - v.len();
        parts_are_found(text.take(n), w, v.skip(w.len() as int));
        assert(text.take(n) + w + v.skip(w.len() as int) =~= text) by {
            assert(w + v.skip(w.len() as int) =~= v);
            assert(text.take(n) + v =~= text);
        }
    }
}

/// Every chunk shows a part of the HTML's text exactly as it stands there, its white space and its line
/// ends included: inside a chunk nothing is left out and nothing is added.
pub proof fn chunks_show_the_text_as_it_stands(html: Seq<char>, max: nat, i: int)
    requires
        complete(html),
        0 <= i < chunked(html, max).len(),
    ensures
        has(visible(html), visible(chunked(html, max)[i])),
{
    if utf8_len(html) <= max {
        let v = visible(html);
        assert(v.subrange(0, v.len() as int) =~= v);
        assert(occurs_at(v, v, 0));
    } else {
        let t = pieces(html);
        pieces_read(html);
        if all_small(chunks_from(t, false, max), max) {
            chunks_from_show_parts(t, false, max, i);
        } else {
            let f = shown(t, t.len() as int, max).pieces;
            shown_sound(t, t.len() as int, max);
            assert(t.take(t.len() as int) =~= t);
            chunks_from_show_parts(f, true, max, i);
        }
    }
}

// ---------------------------------------------------------------------------
// Tags that are never left out
// ---------------------------------------------------------------------------

/// The bytes that it takes to open and to close tags.
pub open spec fn tag_bytes(tags: Seq<Seq<char>>) -> nat
    decreases tags.len(),
{
    if tags.len() == 0 {
        0
    } else {
        tag_bytes(tags.drop_last()) + utf8_len(tags.last()) + utf8_len(close_tag(tags.last()))
    }
}

proof fn reopening_takes_as_much(stack: Seq<Seq<char>>)
    ensures
        utf8_len(openers(stack)) + utf8_len(closers(stack)) == tag_bytes(stack),
    decreases stack.len(),
{
    if stack.len() > 0 {
        let d = stack.drop_last();
        reopening_takes_as_much(d);
        utf8_len_concat(openers(d), stack.last());
        utf8_len_concat(close_tag(stack.last()), closers(d));
    }
}

proof fn characters_are_narrow(rest: Seq<Piece>, name: Seq<char>, depth: nat)
    ensures
        widest_under(rest, name, depth) <= 4,
    decreases rest.len(),
{
    if rest.len() > 0 {
        let next = rest.drop_first();
        characters_are_narrow(next, name, depth);
        characters_are_narrow(next, name, depth + 1);
        if depth > 1 {
            characters_are_narrow(next, name, (depth - 1) as nat);
        }
        match rest[0] {
            Piece::Text(s) => narrow_text(s),
            Piece::Tag(_) => {},
        }
    }
}

proof fn narrow_text(s: Seq<char>)
    ensures
        widest(s) <= 4,
    decreases s.len(),
{
    if s.len() > 0 {
        narrow_text(s.drop_first());
    }
}

proof fn fewer_tags_take_less(tags: Seq<Seq<char>>, i: int)
    requires
        0 <= i < tags.len(),
    ensures
        tag_bytes(tags.remove(i)) <= tag_bytes(tags),
    decreases tags.len(),
{
    let d = tags.drop_last();
    if i < d.len() {
        fewer_tags_take_less(d, i);
        let r = tags.remove(i);
        assert(r.drop_last() =~= d.remove(i));
        assert(r.last() == tags.last());
    } else {
        assert(tags.remove(i) =~= d);
    }
}

spec fn names(open: Seq<Opening>) -> Seq<Seq<char>> {
    open.map_values(|o: Opening| o.tag)
}

proof fn all_shown_tags(open: Seq<Opening>)
    requires
        forall|i: int| 0 <= i < open.len() ==> (#[trigger] open[i]).shown,
    ensures
        shown_tags(open) == names(open),
    decreases open.len(),
{
    if open.len() > 0 {
        let d = open.drop_last();
        assert forall|i: int| 0 <= i < d.len() implies (#[trigger] d[i]).shown by {
            assert(d[i] == open[i]);
        }
        all_shown_tags(d);
        assert(open[open.len() - 1].shown);
        assert(names(open) =~= names(d).push(open.last().tag));
    } else {
        assert(shown_tags(open) =~= names(open));
    }
}

proof fn last_named_is_inside(open: Seq<Opening>, name: Seq<char>)
    ensures
        -1 <= last_named(open, name) < open.len(),
    decreases open.len(),
{
    if open.len() > 0 {
        last_named_is_inside(open.drop_last(), name);
    }
}

proof fn nothing_is_left_out(t: Seq<Piece>, n: int, max: nat)
    requires
        0 <= n <= t.len(),
        tag_bytes(tags_of(t)) + 4 <= max,
    ensures
        shown(t, n, max).pieces == t.take(n),
        forall|i: int| 0 <= i < shown(t, n, max).open.len() ==> (#[trigger] shown(t, n, max).open[i]).shown,
        tag_bytes(names(shown(t, n, max).open)) <= tag_bytes(tags_of(t.take(n))),
    decreases n,
{
    if n > 0 {
        nothing_is_left_out(t, n - 1, max);
        let before = shown(t, n - 1, max);
        let after = shown(t, n, max);
        assert(t.take(n).drop_last() =~= t.take(n - 1));
        assert(t.take(n - 1).push(t[n - 1]) =~= t.take(n));
        first_tags_take_less(t, n);
        all_shown_tags(before.open);
        match t[n - 1] {
            Piece::Tag(tag) => {
                let ts = tags_of(t.take(n - 1));
                assert(tags_of(t.take(n)) == ts.push(tag));
                assert(ts.push(tag).drop_last() =~= ts);
                if closing(tag) {
                    let i = last_named(before.open, name_of(tag));
                    last_named_is_inside(before.open, name_of(tag));
                    if i >= 0 {
                        fewer_tags_take_less(names(before.open), i);
                        assert(names(before.open.remove(i)) =~= names(before.open).remove(i));
                    }
                } else {
                    let stack = shown_tags(before.open).push(tag);
                    reopening_takes_as_much(stack);
                    assert(stack.drop_last() =~= shown_tags(before.open));
                    characters_are_narrow(t.skip(n), name_of(tag), 1);
                    assert(is_shown(before.open, tag, t.skip(n), max));
                    assert(names(after.open) =~= names(before.open).push(tag));
                    assert(names(after.open).drop_last() =~= names(before.open));
                }
            },
            Piece::Text(_) => {
                assert(tags_of(t.take(n)) == tags_of(t.take(n - 1)));
            },
        }
    } else {
        assert(shown(t, n, max).pieces =~= t.take(n));
        assert(names(shown(t, n, max).open) =~= Seq::<Seq<char>>::empty());
    }
}

proof fn first_tags_take_less(t: Seq<Piece>, n: int)
    requires
        0 <= n <= t.len(),
    ensures
        tag_bytes(tags_of(t.take(n))) <= tag_bytes(tags_of(t)),
    decreases t.len(),
{
    if n == t.len() {
        assert(t.take(n) =~= t);
    } else {
        let d = t.drop_last();
        first_tags_take_less(d, n);
        assert(d.take(n) =~= t.take(n));
        match t.last() {
            Piece::Tag(tag) => {
                assert(tags_of(d).push(tag).drop_last() =~= tags_of(d));
            },
            Piece::Text(_) => {},
        }
    }
}

/// HTML whose tags, opened and closed, leave room for a character in every chunk loses none of them: it is
/// split with all its tags, whatever else it takes.
pub proof fn short_tags_are_never_left_out(html: Seq<char>, max: nat)
    requires
        complete(html),
        tag_bytes(tags(html)) + 4 <= max,
    ensures
        utf8_len(html) <= max || chunked(html, max) == chunks_from(pieces(html), false, max) || chunked(html, max)
            == chunks_from(pieces(html), true, max),
{
    let t = pieces(html);
    pieces_read(html);
    nothing_is_left_out(t, t.len() as int, max);
    assert(t.take(t.len() as int) =~= t);
}

} // verus!
