//! Splitting rendered HTML into chunks of limited size whose tags stay balanced.
use crate::text::{
    begins, begins_with, blank, chars_of, char_width, copied, drop_white, extend, part, rows,
    string_of, texts, trim, trim_end, utf8_len, utf8_size,
};
use vstd::prelude::*;

verus! {

// ---------------------------------------------------------------------------
// Tokens
// ---------------------------------------------------------------------------

/// A piece of rendered HTML: a full tag or a run of literal text.
pub enum Token {
    Tag(Vec<char>),
    Text(Vec<char>),
}

/// The mathematical form of a token.
pub enum Piece {
    Tag(Seq<char>),
    Text(Seq<char>),
}

impl View for Token {
    type V = Piece;

    open spec fn view(&self) -> Piece {
        match self {
            Token::Tag(t) => Piece::Tag(t@),
            Token::Text(t) => Piece::Text(t@),
        }
    }
}

/// The mathematical forms of a sequence of tokens.
pub open spec fn pieces_of(v: Seq<Token>) -> Seq<Piece> {
    v.map_values(|t: Token| t@)
}

/// The index of the first such character, or the length where there is none.
pub open spec fn index_of(s: Seq<char>, c: char) -> int
    decreases s.len(),
{
    if s.len() == 0 || s[0] == c {
        0
    } else {
        1 + index_of(s.drop_first(), c)
    }
}

proof fn index_of_bounds(s: Seq<char>, c: char)
    ensures
        0 <= index_of(s, c) <= s.len(),
        index_of(s, c) < s.len() ==> s[index_of(s, c)] == c,
        forall|k: int| 0 <= k < index_of(s, c) ==> s[k] != c,
    decreases s.len(),
{
    if s.len() > 0 && s[0] != c {
        index_of_bounds(s.drop_first(), c);
        assert forall|k: int| 0 <= k < index_of(s, c) implies s[k] != c by {
            if k > 0 {
                assert(s[k] == s.drop_first()[k - 1]);
            }
        }
    }
}

/// The tags and the text runs of the HTML, in order. A tag reaches from `<` to the next `>`; a
/// `<` that no `>` follows starts a run of text.
pub open spec fn pieces(s: Seq<char>) -> Seq<Piece>
    decreases s.len(),
    via pieces_shrink
{
    let lt = index_of(s, '<');
    let gt = index_of(s, '>');
    if s.len() == 0 {
        Seq::empty()
    } else if lt > 0 {
        seq![Piece::Text(s.take(lt))] + pieces(s.skip(lt))
    } else if gt < s.len() {
        seq![Piece::Tag(s.take(gt + 1))] + pieces(s.skip(gt + 1))
    } else {
        seq![Piece::Text(s)]
    }
}

#[via_fn]
proof fn pieces_shrink(s: Seq<char>) {
    index_of_bounds(s, '<');
    index_of_bounds(s, '>');
}

fn find_char(s: &[char], c: char, from: usize) -> (r: usize)
    requires
        from <= s@.len(),
    ensures
        r - from == index_of(s@.skip(from as int), c),
        from <= r <= s@.len(),
{
    let mut i: usize = from;
    while i < s.len() && s[i] != c
        invariant
            from <= i <= s.len(),
            index_of(s@.skip(from as int), c) == (i - from) + index_of(s@.skip(i as int), c),
        decreases s.len() - i,
    {
        assert(s@.skip(i as int).drop_first() =~= s@.skip(i + 1));
        i = i + 1;
    }
    i
}

/// Splits rendered HTML into its tags and text runs.
pub fn tokenize(html: &[char]) -> (r: Vec<Token>)
    ensures
        pieces_of(r@) == pieces(html@),
{
    let mut toks: Vec<Token> = Vec::new();
    let mut i: usize = 0;
    proof {
        assert(html@.skip(0) =~= html@);
        assert(pieces_of(toks@) + pieces(html@.skip(0)) =~= pieces(html@));
    }
    while i < html.len()
        invariant
            i <= html.len(),
            pieces_of(toks@) + pieces(html@.skip(i as int)) == pieces(html@),
        decreases html.len() - i,
    {
        let ghost rest = html@.skip(i as int);
        let ghost done = toks@;
        let lt: usize = find_char(html, '<', i);
        if lt > i {
            let t = Token::Text(copied(part(html, i, lt)));
            proof {
                assert(html@.subrange(i as int, lt as int) =~= rest.take(lt - i));
                assert(html@.skip(lt as int) =~= rest.skip(lt - i));
            }
            toks.push(t);
            assert(pieces_of(toks@) =~= pieces_of(done).push(t@));
            assert(pieces_of(toks@) + pieces(html@.skip(lt as int)) =~= pieces_of(done) + pieces(rest));
            i = lt;
        } else {
            let gt: usize = find_char(html, '>', i);
            if gt < html.len() {
                let t = Token::Tag(copied(part(html, i, gt + 1)));
                proof {
                    assert(html@.subrange(i as int, gt + 1) =~= rest.take(gt + 1 - i));
                    assert(html@.skip(gt + 1) =~= rest.skip(gt + 1 - i));
                }
                toks.push(t);
                assert(pieces_of(toks@) =~= pieces_of(done).push(t@));
                assert(pieces_of(toks@) + pieces(html@.skip(gt + 1)) =~= pieces_of(done) + pieces(rest));
                i = gt + 1;
            } else {
                let t = Token::Text(copied(part(html, i, html.len())));
                assert(html@.subrange(i as int, html@.len() as int) =~= rest);
                toks.push(t);
                assert(pieces_of(toks@) =~= pieces_of(done).push(t@));
                assert(pieces_of(toks@) =~= pieces_of(done) + pieces(rest));
                assert(html@.skip(html@.len() as int) =~= Seq::<char>::empty());
                assert(pieces_of(toks@) + pieces(html@.skip(html@.len() as int)) =~= pieces_of(toks@));
                i = html.len();
            }
        }
    }
    assert(html@.skip(i as int) =~= Seq::<char>::empty());
    assert(pieces_of(toks@) + pieces(html@.skip(i as int)) =~= pieces_of(toks@));
    toks
}

// ---------------------------------------------------------------------------
// Tag names
// ---------------------------------------------------------------------------

/// The text without any such characters at its start.
pub open spec fn lead_stripped(s: Seq<char>, c: char) -> Seq<char>
    decreases s.len(),
{
    if s.len() > 0 && s[0] == c {
        lead_stripped(s.drop_first(), c)
    } else {
        s
    }
}

/// The text without any such characters at its end.
pub open spec fn tail_stripped(s: Seq<char>, c: char) -> Seq<char>
    decreases s.len(),
{
    if s.len() > 0 && s.last() == c {
        tail_stripped(s.drop_last(), c)
    } else {
        s
    }
}

/// The text up to the first space or tab.
pub open spec fn up_to_gap(s: Seq<char>) -> Seq<char>
    decreases s.len(),
{
    if s.len() == 0 || s[0] == ' ' || s[0] == '\t' {
        Seq::empty()
    } else {
        seq![s[0]] + up_to_gap(s.drop_first())
    }
}

/// The name of a tag: `pre` for `<pre>` and `</pre>`, `a` for `<a href=…>`.
pub open spec fn name_of(tag: Seq<char>) -> Seq<char> {
    up_to_gap(tail_stripped(lead_stripped(lead_stripped(tag, '<'), '/'), '>'))
}

/// The closing tag of a name.
pub open spec fn close_tag(tag: Seq<char>) -> Seq<char> {
    seq!['<', '/'] + name_of(tag) + seq!['>']
}

fn strip_lead(s: &[char], c: char) -> (r: &[char])
    ensures
        r@ == lead_stripped(s@, c),
{
    let mut i: usize = 0;
    assert(s@.skip(0) =~= s@);
    while i < s.len() && s[i] == c
        invariant
            i <= s.len(),
            lead_stripped(s@, c) == lead_stripped(s@.skip(i as int), c),
        decreases s.len() - i,
    {
        assert(s@.skip(i as int).drop_first() =~= s@.skip(i + 1));
        i = i + 1;
    }
    assert(s@.subrange(i as int, s@.len() as int) =~= s@.skip(i as int));
    part(s, i, s.len())
}

fn strip_tail(s: &[char], c: char) -> (r: &[char])
    ensures
        r@ == tail_stripped(s@, c),
{
    let mut n: usize = s.len();
    assert(s@.take(n as int) =~= s@);
    while n > 0 && s[n - 1] == c
        invariant
            n <= s.len(),
            tail_stripped(s@, c) == tail_stripped(s@.take(n as int), c),
        decreases n,
    {
        assert(s@.take(n as int).drop_last() =~= s@.take(n - 1));
        n = n - 1;
    }
    assert(s@.subrange(0, n as int) =~= s@.take(n as int));
    part(s, 0, n)
}

/// The name of a tag.
pub fn tag_name(tag: &[char]) -> (r: &[char])
    ensures
        r@ == name_of(tag@),
{
    let inner = strip_tail(strip_lead(strip_lead(tag, '<'), '/'), '>');
    let mut i: usize = 0;
    proof {
        assert(inner@.skip(0) =~= inner@);
        assert(inner@.take(0) + up_to_gap(inner@.skip(0)) =~= up_to_gap(inner@));
    }
    while i < inner.len() && inner[i] != ' ' && inner[i] != '\t'
        invariant
            i <= inner.len(),
            up_to_gap(inner@) == inner@.take(i as int) + up_to_gap(inner@.skip(i as int)),
        decreases inner.len() - i,
    {
        proof {
            assert(inner@.skip(i as int).drop_first() =~= inner@.skip(i + 1));
            assert(inner@.take(i + 1) + up_to_gap(inner@.skip(i + 1)) =~= inner@.take(i as int)
                + up_to_gap(inner@.skip(i as int)));
        }
        i = i + 1;
    }
    proof {
        assert(up_to_gap(inner@.skip(i as int)) =~= Seq::<char>::empty());
        assert(inner@.subrange(0, i as int) =~= up_to_gap(inner@));
    }
    part(inner, 0, i)
}

/// The closing tag that belongs to an opening tag.
pub fn close_tag_for(open_tag: &[char]) -> (r: Vec<char>)
    ensures
        r@ == close_tag(open_tag@),
{
    let mut r: Vec<char> = Vec::new();
    r.push('<');
    r.push('/');
    extend(&mut r, tag_name(open_tag));
    r.push('>');
    assert(r@ =~= close_tag(open_tag@));
    r
}

// ---------------------------------------------------------------------------
// The chunking state
// ---------------------------------------------------------------------------

/// The closing tags of all open tags, innermost first.
pub open spec fn closers(stack: Seq<Seq<char>>) -> Seq<char>
    decreases stack.len(),
{
    if stack.len() == 0 {
        Seq::empty()
    } else {
        close_tag(stack.last()) + closers(stack.drop_last())
    }
}

/// All open tags again, outermost first.
pub open spec fn openers(stack: Seq<Seq<char>>) -> Seq<char>
    decreases stack.len(),
{
    if stack.len() == 0 {
        Seq::empty()
    } else {
        openers(stack.drop_last()) + stack.last()
    }
}

/// What has been written so far: finished chunks, the chunk in progress and the open tags.
pub struct Progress {
    pub chunks: Seq<Seq<char>>,
    pub cur: Seq<char>,
    pub stack: Seq<Seq<char>>,
}

/// A finished chunk is kept unless it is blank.
pub open spec fn kept(chunks: Seq<Seq<char>>, chunk: Seq<char>) -> Seq<Seq<char>> {
    if blank(chunk) {
        chunks
    } else {
        chunks.push(chunk)
    }
}

/// All open tags are closed, the chunk is finished, and the next one reopens the same tags.
pub open spec fn flushed(p: Progress) -> Progress {
    Progress {
        chunks: kept(p.chunks, p.cur + closers(p.stack)),
        cur: openers(p.stack),
        stack: p.stack,
    }
}

/// The stack without the last open tag of the given name.
pub open spec fn closed_last(stack: Seq<Seq<char>>, name: Seq<char>) -> Seq<Seq<char>>
    decreases stack.len(),
{
    if stack.len() == 0 {
        stack
    } else if name_of(stack.last()) == name {
        stack.drop_last()
    } else {
        closed_last(stack.drop_last(), name).push(stack.last())
    }
}

/// A tag is a closing tag.
pub open spec fn closing(tag: Seq<char>) -> bool {
    begins(tag, seq!['<', '/'])
}

/// What is written for a closing tag: the tag as it stands. Where the limit is tight, a tag that
/// does not fit is written in its shortest form if it closes an open tag, and else not at all.
pub open spec fn written_close(p: Progress, tag: Seq<char>, tight: bool, max: nat) -> Seq<char> {
    let rest = closed_last(p.stack, name_of(tag));
    if !tight || utf8_len(p.cur) + utf8_len(tag) + utf8_len(closers(rest)) <= max {
        tag
    } else if rest.len() < p.stack.len() {
        close_tag(tag)
    } else {
        Seq::empty()
    }
}

/// The progress after one more tag. An opening tag starts a new chunk where the tag and the
/// closing tags then needed would not fit, unless the chunk holds nothing but reopened tags.
pub open spec fn after_tag(p: Progress, tag: Seq<char>, tight: bool, max: nat) -> Progress {
    if closing(tag) {
        Progress {
            chunks: p.chunks,
            cur: p.cur + written_close(p, tag, tight, max),
            stack: closed_last(p.stack, name_of(tag)),
        }
    } else {
        let full = utf8_len(p.cur) + utf8_len(tag) + utf8_len(closers(p.stack)) + utf8_len(
            close_tag(tag),
        ) > max;
        let q = if full && utf8_len(p.cur) > utf8_len(openers(p.stack)) {
            flushed(p)
        } else {
            p
        };
        Progress { chunks: q.chunks, cur: q.cur + tag, stack: q.stack.push(tag) }
    }
}

/// The number of leading characters that fit into so many bytes.
pub open spec fn fit(s: Seq<char>, bytes: int) -> int
    decreases s.len(),
{
    if s.len() > 0 && utf8_width_of(s[0]) <= bytes {
        1 + fit(s.drop_first(), bytes - utf8_width_of(s[0]))
    } else {
        0
    }
}

/// The bytes of a character, as an integer.
pub open spec fn utf8_width_of(c: char) -> int {
    crate::text::utf8_width(c) as int
}

/// The position just behind the last line feed of the first `n` characters; zero where there is
/// none.
pub open spec fn past_newline(s: Seq<char>, n: int) -> int
    decreases n,
{
    if n <= 0 {
        0
    } else if s[n - 1] == '\n' {
        n
    } else {
        past_newline(s, n - 1)
    }
}

/// Where to cut the text so that the first part has at most so many bytes: behind the last line
/// feed that fits, or else behind the last character that fits.
pub open spec fn cut_at(s: Seq<char>, bytes: int) -> int {
    let n = fit(s, bytes);
    let nl = past_newline(s, n);
    if nl > 0 {
        nl
    } else {
        n
    }
}

/// The bytes left in the chunk in progress once all open tags are closed.
pub open spec fn room(p: Progress, max: nat) -> int {
    let left = max - utf8_len(closers(p.stack)) - utf8_len(p.cur);
    if left < 0 {
        0
    } else {
        left
    }
}

/// The chunk in progress holds nothing but reopened tags.
pub open spec fn fresh(p: Progress) -> bool {
    utf8_len(p.cur) <= utf8_len(openers(p.stack))
}

/// How much text is forced into a fresh chunk that has no room for it: what fits without regard
/// to the closing tags, and at least one character.
pub open spec fn forced(p: Progress, s: Seq<char>, max: nat) -> int {
    let left = max - utf8_len(p.cur);
    let n = fit(s, if left < 1 { 1 } else { left });
    if n < 1 {
        1
    } else {
        n
    }
}

/// The chunk in progress with more text.
pub open spec fn with_text(p: Progress, s: Seq<char>) -> Progress {
    Progress { chunks: p.chunks, cur: p.cur + s, stack: p.stack }
}

/// The progress after a run of text, which is cut into pieces that fit.
pub open spec fn after_text(p: Progress, s: Seq<char>, max: nat) -> Progress
    decreases s.len(), (if fresh(p) { 0int } else { 1int }),
    via after_text_shrinks
{
    let cut = cut_at(s, room(p, max));
    if utf8_len(s) <= room(p, max) {
        with_text(p, s)
    } else if cut > 0 {
        after_text(flushed(with_text(p, s.take(cut))), s.skip(cut), max)
    } else if !fresh(p) {
        after_text(flushed(p), s, max)
    } else {
        let n = forced(p, s, max);
        after_text(flushed(with_text(p, s.take(n))), s.skip(n), max)
    }
}

proof fn fit_bounds(s: Seq<char>, bytes: int)
    ensures
        0 <= fit(s, bytes) <= s.len(),
        fit(s, bytes) > 0 ==> utf8_len(s.take(fit(s, bytes))) <= bytes,
    decreases s.len(),
{
    if s.len() > 0 && utf8_width_of(s[0]) <= bytes {
        let rest = s.drop_first();
        let left = bytes - utf8_width_of(s[0]);
        fit_bounds(rest, left);
        let n = fit(rest, left);
        assert(s.take(n + 1) =~= seq![s[0]] + rest.take(n));
        crate::text::utf8_len_concat(seq![s[0]], rest.take(n));
        assert(seq![s[0]].drop_last() =~= Seq::<char>::empty());
        assert(utf8_len(seq![s[0]]) == utf8_width_of(s[0])) by {
            reveal_with_fuel(utf8_len, 2);
        }
        if n == 0 {
            assert(rest.take(0) =~= Seq::<char>::empty());
        }
    }
}

proof fn cut_at_bounds(s: Seq<char>, bytes: int)
    ensures
        0 <= cut_at(s, bytes) <= fit(s, bytes) <= s.len(),
{
    fit_bounds(s, bytes);
    past_newline_bounds(s, fit(s, bytes));
}

proof fn past_newline_bounds(s: Seq<char>, n: int)
    ensures
        0 <= past_newline(s, n),
        n >= 0 ==> past_newline(s, n) <= n,
    decreases n,
{
    if n > 0 {
        past_newline_bounds(s, n - 1);
    }
}

#[via_fn]
proof fn after_text_shrinks(p: Progress, s: Seq<char>, max: nat) {
    text_cuts(p, s, max);
}

/// Text that does not fit is cut into parts that are not empty.
pub proof fn text_cuts(p: Progress, s: Seq<char>, max: nat)
    ensures
        0 <= cut_at(s, room(p, max)) <= s.len(),
        utf8_len(s) > room(p, max) ==> 1 <= forced(p, s, max) <= s.len(),
{
    cut_at_bounds(s, room(p, max));
    let left = max - utf8_len(p.cur);
    fit_bounds(s, if left < 1 { 1 } else { left });
    crate::text::utf8_len_bounds(s);
}

/// The progress after some of the pieces.
pub open spec fn after_pieces(t: Seq<Piece>, tight: bool, max: nat) -> Progress
    decreases t.len(),
{
    if t.len() == 0 {
        Progress { chunks: Seq::empty(), cur: Seq::empty(), stack: Seq::empty() }
    } else {
        let before = after_pieces(t.drop_last(), tight, max);
        match t.last() {
            Piece::Tag(tag) => after_tag(before, tag, tight, max),
            Piece::Text(text) => after_text(before, text, max),
        }
    }
}

/// The chunks of some pieces, the last one with all tags closed and without trailing white space.
pub open spec fn chunks_from(t: Seq<Piece>, tight: bool, max: nat) -> Seq<Seq<char>> {
    let p = after_pieces(t, tight, max);
    kept(p.chunks, trim_end(p.cur + closers(p.stack)))
}

/// No chunk has more than so many bytes.
pub open spec fn all_small(chunks: Seq<Seq<char>>, max: nat) -> bool {
    forall|i: int| 0 <= i < chunks.len() ==> utf8_len(#[trigger] chunks[i]) <= max
}

/// The chunks of the rendered HTML: the HTML itself where it fits, else the chunks of all its
/// pieces where each of them fits, and else those of the pieces that leave room for each other.
pub open spec fn chunked(html: Seq<char>, max: nat) -> Seq<Seq<char>> {
    let t = pieces(html);
    if utf8_len(html) <= max {
        seq![html]
    } else if all_small(chunks_from(t, false, max), max) {
        chunks_from(t, false, max)
    } else {
        chunks_from(shown(t, t.len() as int, max).pieces, true, max)
    }
}

// ---------------------------------------------------------------------------
// Tags that leave no room
// ---------------------------------------------------------------------------

/// The bytes of the widest character; zero where there is none.
pub open spec fn widest(s: Seq<char>) -> nat
    decreases s.len(),
{
    if s.len() == 0 {
        0
    } else if crate::text::utf8_width(s[0]) > widest(s.drop_first()) {
        crate::text::utf8_width(s[0])
    } else {
        widest(s.drop_first())
    }
}

/// The bytes of the widest character under so many open tags of a name: the text up to the tag
/// that closes the outermost of them.
pub open spec fn widest_under(rest: Seq<Piece>, name: Seq<char>, depth: nat) -> nat
    decreases rest.len(),
{
    if rest.len() == 0 {
        0
    } else {
        let next = rest.drop_first();
        match rest[0] {
            Piece::Text(s) => if widest(s) > widest_under(next, name, depth) {
                widest(s)
            } else {
                widest_under(next, name, depth)
            },
            Piece::Tag(t) => if name_of(t) != name {
                widest_under(next, name, depth)
            } else if !closing(t) {
                widest_under(next, name, depth + 1)
            } else if depth <= 1 {
                0
            } else {
                widest_under(next, name, (depth - 1) as nat)
            },
        }
    }
}

/// A chunk that reopens and closes these tags has room for so many bytes.
pub open spec fn leaves_room(stack: Seq<Seq<char>>, bytes: nat, max: nat) -> bool {
    utf8_len(openers(stack)) + utf8_len(closers(stack)) + bytes <= max
}

/// An opening tag whose closing tag has not come yet, and whether it is shown.
pub struct Opening {
    pub tag: Seq<char>,
    pub shown: bool,
}

/// The open tags that are shown.
pub open spec fn shown_tags(open: Seq<Opening>) -> Seq<Seq<char>>
    decreases open.len(),
{
    if open.len() == 0 {
        Seq::empty()
    } else if open.last().shown {
        shown_tags(open.drop_last()).push(open.last().tag)
    } else {
        shown_tags(open.drop_last())
    }
}

/// The position of the last open tag of the given name; -1 where there is none.
pub open spec fn last_named(open: Seq<Opening>, name: Seq<char>) -> int
    decreases open.len(),
{
    if open.len() == 0 {
        -1
    } else if name_of(open.last().tag) == name {
        open.len() - 1
    } else {
        last_named(open.drop_last(), name)
    }
}

/// The tag, with the pieces behind it, is shown. An opening tag is shown where it leaves room for
/// each character under it, and a closing tag unless it closes a tag that is not shown.
pub open spec fn is_shown(open: Seq<Opening>, tag: Seq<char>, rest: Seq<Piece>, max: nat) -> bool {
    if closing(tag) {
        let i = last_named(open, name_of(tag));
        i < 0 || open[i].shown
    } else {
        leaves_room(shown_tags(open).push(tag), widest_under(rest, name_of(tag), 1), max)
    }
}

/// The open tags after one more tag.
pub open spec fn open_then(open: Seq<Opening>, tag: Seq<char>, rest: Seq<Piece>, max: nat) -> Seq<Opening> {
    if closing(tag) {
        let i = last_named(open, name_of(tag));
        if i < 0 {
            open
        } else {
            open.remove(i)
        }
    } else {
        open.push(Opening { tag, shown: is_shown(open, tag, rest, max) })
    }
}

/// The pieces that are shown, and the tags that are open behind them.
pub struct Shown {
    pub pieces: Seq<Piece>,
    pub open: Seq<Opening>,
}

/// The first `n` pieces without the tags that would leave no room for a character under them, and
/// without what closes those. All text is kept.
pub open spec fn shown(t: Seq<Piece>, n: int, max: nat) -> Shown
    decreases n,
{
    if n <= 0 {
        Shown { pieces: Seq::empty(), open: Seq::empty() }
    } else {
        let before = shown(t, n - 1, max);
        match t[n - 1] {
            Piece::Tag(tag) => Shown {
                pieces: if is_shown(before.open, tag, t.skip(n), max) {
                    before.pieces.push(t[n - 1])
                } else {
                    before.pieces
                },
                open: open_then(before.open, tag, t.skip(n), max),
            },
            Piece::Text(_) => Shown { pieces: before.pieces.push(t[n - 1]), open: before.open },
        }
    }
}

/// Closing a tag that is shown takes it off the tags that are shown, and closing another one
/// leaves them as they are.
proof fn shown_after_close(open: Seq<Opening>, name: Seq<char>)
    ensures
        ({
            let i = last_named(open, name);
            &&& -1 <= i < open.len()
            &&& i >= 0 && open[i].shown ==> shown_tags(open.remove(i)) == closed_last(shown_tags(open), name)
            &&& i >= 0 && !open[i].shown ==> shown_tags(open.remove(i)) == shown_tags(open)
            &&& i < 0 ==> closed_last(shown_tags(open), name) == shown_tags(open)
        }),
    decreases open.len(),
{
    if open.len() > 0 {
        let d = open.drop_last();
        let e = open.last();
        let all = shown_tags(open);
        let some = shown_tags(d);
        shown_after_close(d, name);
        if e.shown {
            assert(all.drop_last() =~= some);
        }
        let i = last_named(open, name);
        if name_of(e.tag) == name {
            assert(open.remove(i) =~= d);
        } else {
            if i >= 0 {
                assert(open.remove(i).drop_last() =~= d.remove(i));
                assert(open.remove(i).last() == e);
            }
            if e.shown {
                assert(closed_last(all, name) == closed_last(some, name).push(e.tag));
                assert(some.push(e.tag) =~= all);
            }
        }
    }
}

/// Text leaves the open tags as they are.
pub proof fn text_keeps_tags(p: Progress, s: Seq<char>, max: nat)
    ensures
        after_text(p, s, max).stack == p.stack,
    decreases s.len(), (if fresh(p) { 0int } else { 1int }),
{
    text_cuts(p, s, max);
    let cut = cut_at(s, room(p, max));
    if utf8_len(s) <= room(p, max) {
    } else if cut > 0 {
        text_keeps_tags(flushed(with_text(p, s.take(cut))), s.skip(cut), max);
    } else if !fresh(p) {
        text_keeps_tags(flushed(p), s, max);
    } else {
        let n = forced(p, s, max);
        text_keeps_tags(flushed(with_text(p, s.take(n))), s.skip(n), max);
    }
}

/// The open tags that are shown are those of the chunk in progress.
pub proof fn shown_tags_are_open(t: Seq<Piece>, n: int, tight: bool, max: nat)
    requires
        n <= t.len(),
    ensures
        after_pieces(shown(t, n, max).pieces, tight, max).stack == shown_tags(shown(t, n, max).open),
    decreases n,
{
    if n > 0 {
        let before = shown(t, n - 1, max);
        let p = after_pieces(before.pieces, tight, max);
        shown_tags_are_open(t, n - 1, tight, max);
        assert(before.pieces.push(t[n - 1]).drop_last() =~= before.pieces);
        match t[n - 1] {
            Piece::Tag(tag) => {
                shown_after_close(before.open, name_of(tag));
                let e = Opening { tag, shown: is_shown(before.open, tag, t.skip(n), max) };
                assert(before.open.push(e).drop_last() =~= before.open);
            },
            Piece::Text(s) => text_keeps_tags(p, s, max),
        }
    }
}

// ---------------------------------------------------------------------------
// Sizes that may exceed every machine integer
// ---------------------------------------------------------------------------

/// The number, or the largest machine integer where the number is larger.
pub open spec fn capped(n: int) -> u128 {
    if n <= u128::MAX {
        n as u128
    } else {
        u128::MAX
    }
}

fn capped_sum(a: u128, b: u128) -> (r: u128)
    ensures
        r == capped(a + b),
{
    if b > u128::MAX - a {
        u128::MAX
    } else {
        a + b
    }
}

fn less_or_zero(a: u128, b: u128) -> (r: u128)
    ensures
        r == (if a >= b {
            a - b
        } else {
            0
        }),
{
    if a >= b {
        a - b
    } else {
        0
    }
}

/// The bytes needed to close every open tag.
pub fn closing_len(stack: &Vec<Vec<char>>) -> (r: u128)
    ensures
        r == capped(utf8_len(closers(rows(stack@))) as int),
{
    let ghost all = rows(stack@);
    let mut n: u128 = 0;
    let mut i: usize = 0;
    assert(all.take(0) =~= Seq::empty());
    while i < stack.len()
        invariant
            i <= stack.len(),
            all == rows(stack@),
            n == capped(utf8_len(closers(all.take(i as int))) as int),
        decreases stack.len() - i,
    {
        let t = close_tag_for(stack[i].as_slice());
        let size: u128 = utf8_size(t.as_slice());
        proof {
            let now = all.take(i + 1);
            assert(now.drop_last() =~= all.take(i as int));
            crate::text::utf8_len_concat(close_tag(now.last()), closers(now.drop_last()));
        }
        n = capped_sum(n, size);
        i = i + 1;
    }
    assert(all.take(i as int) =~= all);
    n
}

/// The bytes needed to reopen every open tag.
pub fn reopen_len(stack: &Vec<Vec<char>>) -> (r: u128)
    ensures
        r == capped(utf8_len(openers(rows(stack@))) as int),
{
    let ghost all = rows(stack@);
    let mut n: u128 = 0;
    let mut i: usize = 0;
    assert(all.take(0) =~= Seq::empty());
    while i < stack.len()
        invariant
            i <= stack.len(),
            all == rows(stack@),
            n == capped(utf8_len(openers(all.take(i as int))) as int),
        decreases stack.len() - i,
    {
        let size: u128 = utf8_size(stack[i].as_slice());
        proof {
            let now = all.take(i + 1);
            assert(now.drop_last() =~= all.take(i as int));
            crate::text::utf8_len_concat(openers(now.drop_last()), now.last());
        }
        n = capped_sum(n, size);
        i = i + 1;
    }
    assert(all.take(i as int) =~= all);
    n
}

// ---------------------------------------------------------------------------
// Execution
// ---------------------------------------------------------------------------

/// The chunking state in memory.
pub struct Chunker {
    pub chunks: Vec<String>,
    pub cur: Vec<char>,
    pub stack: Vec<Vec<char>>,
}

impl View for Chunker {
    type V = Progress;

    open spec fn view(&self) -> Progress {
        Progress { chunks: texts(self.chunks@), cur: self.cur@, stack: rows(self.stack@) }
    }
}

fn push_closers(cur: &mut Vec<char>, stack: &Vec<Vec<char>>)
    ensures
        final(cur)@ == old(cur)@ + closers(rows(stack@)),
{
    let ghost all = rows(stack@);
    let ghost start = cur@;
    let mut i: usize = stack.len();
    assert(all.take(i as int) =~= all);
    while i > 0
        invariant
            i <= stack.len(),
            all == rows(stack@),
            start + closers(all) == cur@ + closers(all.take(i as int)),
        decreases i,
    {
        let t = close_tag_for(stack[i - 1].as_slice());
        let ghost before = cur@;
        extend(cur, t.as_slice());
        proof {
            let now = all.take(i as int);
            assert(now.drop_last() =~= all.take(i - 1));
            assert(cur@ + closers(all.take(i - 1)) =~= before + closers(now));
        }
        i = i - 1;
    }
    assert(closers(all.take(0)) =~= Seq::<char>::empty());
    assert(cur@ =~= start + closers(all));
}

fn push_openers(cur: &mut Vec<char>, stack: &Vec<Vec<char>>)
    ensures
        final(cur)@ == old(cur)@ + openers(rows(stack@)),
{
    let ghost all = rows(stack@);
    let ghost start = cur@;
    let mut i: usize = 0;
    assert(openers(all.take(0)) =~= Seq::<char>::empty());
    assert(start + openers(all.take(0)) =~= start);
    while i < stack.len()
        invariant
            i <= stack.len(),
            all == rows(stack@),
            cur@ == start + openers(all.take(i as int)),
        decreases stack.len() - i,
    {
        extend(cur, stack[i].as_slice());
        i = i + 1;
        assert(all.take(i as int).drop_last() =~= all.take(i - 1));
        assert(cur@ =~= start + openers(all.take(i as int)));
    }
    assert(all.take(i as int) =~= all);
}

fn keep(chunks: &mut Vec<String>, chunk: &[char])
    ensures
        texts(final(chunks)@) == kept(texts(old(chunks)@), chunk@),
{
    if trim(chunk).len() > 0 {
        chunks.push(string_of(chunk));
        assert(texts(chunks@) =~= texts(old(chunks)@).push(chunk@));
    }
}

/// Closes all open tags, finishes the chunk, and reopens the same tags on the next one.
pub fn flush_balanced(c: &mut Chunker)
    ensures
        final(c)@ == flushed(old(c)@),
{
    let ghost before = c@;
    push_closers(&mut c.cur, &c.stack);
    keep(&mut c.chunks, c.cur.as_slice());
    let mut next: Vec<char> = Vec::new();
    push_openers(&mut next, &c.stack);
    assert(next@ =~= openers(rows(c.stack@)));
    c.cur = next;
    assert(c@.chunks =~= flushed(before).chunks);
}

/// The number of leading characters that fit into so many bytes.
fn fitting(s: &[char], from: usize, bytes: u128) -> (r: usize)
    requires
        from <= s@.len(),
    ensures
        r == fit(s@.skip(from as int), bytes as int),
        from + r <= s@.len(),
{
    let mut i: usize = from;
    let mut left: u128 = bytes;
    while i < s.len() && char_width(s[i]) as u128 <= left
        invariant
            from <= i <= s.len(),
            fit(s@.skip(from as int), bytes as int) == (i - from) + fit(
                s@.skip(i as int),
                left as int,
            ),
        decreases s.len() - i,
    {
        assert(s@.skip(i as int).drop_first() =~= s@.skip(i + 1));
        left = left - char_width(s[i]) as u128;
        i = i + 1;
    }
    i - from
}

/// Where to cut the text so that the first part has at most so many bytes, preferring to cut
/// just behind the last line feed.
pub fn best_break(s: &[char], from: usize, avail: u128) -> (r: usize)
    requires
        from <= s@.len(),
    ensures
        r == cut_at(s@.skip(from as int), avail as int),
        from + r <= s@.len(),
{
    let n: usize = fitting(s, from, avail);
    let ghost rest = s@.skip(from as int);
    let mut k: usize = n;
    while k > 0 && s[from + (k - 1)] != '\n'
        invariant
            k <= n,
            from + n <= s.len(),
            rest == s@.skip(from as int),
            past_newline(rest, n as int) == past_newline(rest, k as int),
        decreases k,
    {
        assert(rest[k - 1] == s@[from + k - 1]);
        k = k - 1;
    }
    if k > 0 {
        assert(rest[k - 1] == s@[from + k - 1]);
        k
    } else {
        n
    }
}

fn same_chars(a: &[char], b: &[char]) -> (r: bool)
    ensures
        r == (a@ == b@),
{
    let r: bool = a.len() == b.len() && begins_with(a, b);
    proof {
        if r {
            assert(a@.subrange(0, b@.len() as int) =~= a@);
        }
        if a@ == b@ {
            assert(a@.subrange(0, b@.len() as int) =~= b@);
        }
    }
    r
}

fn remove_last(stack: &mut Vec<Vec<char>>, name: &[char])
    ensures
        rows(final(stack)@) == closed_last(rows(old(stack)@), name@),
{
    let ghost all = rows(stack@);
    let mut i: usize = stack.len();
    proof {
        assert(all.take(i as int) =~= all);
        assert(closed_last(all.take(i as int), name@) + all.skip(i as int) =~= closed_last(all, name@));
    }
    while i > 0
        invariant
            i <= stack.len(),
            all == rows(stack@),
            stack@ == old(stack)@,
            closed_last(all, name@) == closed_last(all.take(i as int), name@) + all.skip(i as int),
        decreases i,
    {
        let ghost now = all.take(i as int);
        assert(now.drop_last() =~= all.take(i - 1));
        let found: bool = same_chars(tag_name(stack[i - 1].as_slice()), name);
        if found {
            stack.remove(i - 1);
            assert(rows(stack@) =~= all.take(i - 1) + all.skip(i as int));
            return;
        }
        assert(closed_last(all.take(i - 1), name@) + all.skip(i - 1) =~= closed_last(now, name@)
            + all.skip(i as int));
        i = i - 1;
    }
    assert(closed_last(all.take(0), name@) + all.skip(0) =~= all);
}

fn take_tag(c: &mut Chunker, tag: &[char], tight: bool, max: u128)
    requires
        max <= usize::MAX,
    ensures
        final(c)@ == after_tag(old(c)@, tag@, tight, max as nat),
{
    let ghost p = c@;
    if is_closing(tag) {
        let before: usize = c.stack.len();
        let name = copied(tag_name(tag));
        remove_last(&mut c.stack, name.as_slice());
        let size: u128 = capped_sum(
            capped_sum(utf8_size(c.cur.as_slice()), utf8_size(tag)),
            closing_len(&c.stack),
        );
        if !tight || size <= max {
            extend(&mut c.cur, tag);
        } else if c.stack.len() < before {
            let short = close_tag_for(tag);
            extend(&mut c.cur, short.as_slice());
        } else {
            assert(p.cur + Seq::<char>::empty() =~= p.cur);
        }
        assert(c@ == after_tag(p, tag@, tight, max as nat));
    } else {
        let own = close_tag_for(tag);
        let size: u128 = utf8_size(c.cur.as_slice());
        let closed: u128 = capped_sum(
            capped_sum(size, utf8_size(tag)),
            capped_sum(closing_len(&c.stack), utf8_size(own.as_slice())),
        );
        assert(closed > max <==> utf8_len(p.cur) + utf8_len(tag@) + utf8_len(closers(p.stack))
            + utf8_len(close_tag(tag@)) > max);
        let again: u128 = reopen_len(&c.stack);
        assert(size > again <==> utf8_len(p.cur) > utf8_len(openers(p.stack)));
        if closed > max && size > again {
            flush_balanced(c);
        }
        extend(&mut c.cur, tag);
        let ghost st = c.stack@;
        c.stack.push(copied(tag));
        assert(rows(c.stack@) =~= rows(st).push(tag@));
    }
}

fn take_text(c: &mut Chunker, text: &[char], max: u128)
    ensures
        final(c)@ == after_text(old(c)@, text@, max as nat),
{
    let ghost p = c@;
    let mut pos: usize = 0;
    assert(text@.skip(0) =~= text@);
    loop
        invariant_except_break
            pos <= text@.len(),
            after_text(p, text@, max as nat) == after_text(c@, text@.skip(pos as int), max as nat),
        ensures
            c@ == after_text(p, text@, max as nat),
        decreases text@.len() - pos, (if fresh(c@) { 0int } else { 1int }),
    {
        let ghost rest = text@.skip(pos as int);
        let ghost now = c@;
        let size: u128 = utf8_size(c.cur.as_slice());
        let avail: u128 = less_or_zero(less_or_zero(max, closing_len(&c.stack)), size);
        let tail = part(text, pos, text.len());
        assert(tail@ =~= rest);
        assert(avail == room(now, max as nat));
        if utf8_size(tail) <= avail {
            extend(&mut c.cur, tail);
            break;
        }
        proof {
            text_cuts(now, rest, max as nat);
        }
        let cut: usize = best_break(text, pos, avail);
        if cut > 0 {
            extend(&mut c.cur, part(text, pos, pos + cut));
            assert(text@.subrange(pos as int, pos + cut) =~= rest.take(cut as int));
            flush_balanced(c);
            assert(text@.skip(pos + cut) =~= rest.skip(cut as int));
            pos = pos + cut;
        } else if size > reopen_len(&c.stack) {
            flush_balanced(c);
        } else {
            let left: u128 = less_or_zero(max, size);
            let mut n: usize = fitting(text, pos, if left < 1 { 1 } else { left });
            if n < 1 {
                n = 1;
            }
            assert(n == forced(now, rest, max as nat));
            extend(&mut c.cur, part(text, pos, pos + n));
            assert(text@.subrange(pos as int, pos + n) =~= rest.take(n as int));
            flush_balanced(c);
            assert(text@.skip(pos + n) =~= rest.skip(n as int));
            pos = pos + n;
        }
    }
}

/// An opening tag in memory, and whether it is shown.
pub struct OpenTag {
    pub tag: Vec<char>,
    pub shown: bool,
}

/// The mathematical forms of a sequence of open tags.
pub open spec fn openings(v: Seq<OpenTag>) -> Seq<Opening> {
    v.map_values(|o: OpenTag| Opening { tag: o.tag@, shown: o.shown })
}

/// The bytes of the widest character.
fn widest_of(s: &[char]) -> (r: usize)
    ensures
        r == widest(s@),
        r <= 4,
{
    let mut n: usize = 0;
    let mut i: usize = s.len();
    assert(s@.skip(i as int) =~= Seq::<char>::empty());
    while i > 0
        invariant
            i <= s.len(),
            n == widest(s@.skip(i as int)),
            n <= 4,
        decreases i,
    {
        assert(s@.skip(i - 1).drop_first() =~= s@.skip(i as int));
        i = i - 1;
        let w: usize = char_width(s[i]);
        if w > n {
            n = w;
        }
    }
    assert(s@.skip(0) =~= s@);
    n
}

spec fn larger(a: nat, b: nat) -> nat {
    if a > b {
        a
    } else {
        b
    }
}

fn is_closing(tag: &[char]) -> (r: bool)
    ensures
        r == closing(tag@),
{
    let r: bool = tag.len() >= 2 && tag[0] == '<' && tag[1] == '/';
    proof {
        let lead = seq!['<', '/'];
        if r {
            assert(tag@.subrange(0, 2) =~= lead);
        }
        if closing(tag@) {
            assert(tag@.subrange(0, 2)[0] == lead[0] && tag@.subrange(0, 2)[1] == lead[1]);
        }
    }
    r
}

/// The bytes of the widest character under the tag of this name that stands before the given
/// position.
fn widest_below(toks: &Vec<Token>, from: usize, name: &[char]) -> (r: usize)
    requires
        from <= toks@.len(),
    ensures
        r == widest_under(pieces_of(toks@).skip(from as int), name@, 1),
        r <= 4,
{
    let ghost all = pieces_of(toks@);
    let ghost goal = widest_under(all.skip(from as int), name@, 1);
    let mut n: usize = 0;
    let mut depth: u128 = 1;
    let mut i: usize = from;
    while i < toks.len()
        invariant
            from <= i <= toks.len(),
            1 <= depth <= 1 + (i - from),
            all == pieces_of(toks@),
            n <= 4,
            goal == widest_under(all.skip(from as int), name@, 1),
            goal == larger(n as nat, widest_under(all.skip(i as int), name@, depth as nat)),
        decreases toks.len() - i,
    {
        let ghost rest = all.skip(i as int);
        assert(rest.drop_first() =~= all.skip(i + 1));
        assert(rest[0] == toks@[i as int]@);
        match &toks[i] {
            Token::Text(s) => {
                let w: usize = widest_of(s.as_slice());
                if w > n {
                    n = w;
                }
            },
            Token::Tag(t) => {
                if same_chars(tag_name(t.as_slice()), name) {
                    if !is_closing(t.as_slice()) {
                        depth = depth + 1;
                    } else if depth <= 1 {
                        return n;
                    } else {
                        depth = depth - 1;
                    }
                }
            },
        }
        i = i + 1;
    }
    assert(all.skip(i as int) =~= Seq::<Piece>::empty());
    n
}

/// Decides whether the tag at a position is shown, and keeps the open tags in step.
fn note_tag(open: &mut Vec<OpenTag>, stack: &Vec<Vec<char>>, toks: &Vec<Token>, at: usize, tag: &[char], max: u128) -> (r:
    bool)
    requires
        rows(stack@) == shown_tags(openings(old(open)@)),
        at < toks.len(),
        max <= usize::MAX,
    ensures
        r == is_shown(openings(old(open)@), tag@, pieces_of(toks@).skip(at + 1), max as nat),
        openings(final(open)@) == open_then(openings(old(open)@), tag@, pieces_of(toks@).skip(at + 1), max as nat),
{
    let ghost all = openings(open@);
    if is_closing(tag) {
        let name = copied(tag_name(tag));
        let mut i: usize = open.len();
        assert(all.take(i as int) =~= all);
        while i > 0
            invariant
                i <= open.len(),
                all == openings(open@),
                open@ == old(open)@,
                name@ == name_of(tag@),
                closing(tag@),
                last_named(all, name@) == last_named(all.take(i as int), name@),
            ensures
                i == 0,
            decreases i,
        {
            let ghost now = all.take(i as int);
            assert(now.drop_last() =~= all.take(i - 1));
            assert(now.last() == all[i - 1]);
            let found: bool = same_chars(tag_name(open[i - 1].tag.as_slice()), name.as_slice());
            if found {
                let o = open.remove(i - 1);
                assert(openings(open@) =~= all.remove(i - 1));
                return o.shown;
            }
            i = i - 1;
        }
        assert(last_named(all.take(0), name@) == -1);
        true
    } else {
        let own = close_tag_for(tag);
        let size: u128 = capped_sum(
            capped_sum(reopen_len(stack), utf8_size(tag)),
            capped_sum(closing_len(stack), utf8_size(own.as_slice())),
        );
        let wide: usize = widest_below(toks, at + 1, tag_name(tag));
        let shown: bool = size <= max && max - size >= wide as u128;
        proof {
            let st = shown_tags(all);
            assert(st.push(tag@).drop_last() =~= st);
            crate::text::utf8_len_concat(openers(st), tag@);
            crate::text::utf8_len_concat(close_tag(tag@), closers(st));
        }
        open.push(OpenTag { tag: copied(tag), shown });
        assert(openings(open@) =~= all.push(Opening { tag: tag@, shown }));
        shown
    }
}

/// The chunks of all pieces.
fn chunk_all(toks: &Vec<Token>, max: u128) -> (r: Vec<String>)
    requires
        max <= usize::MAX,
    ensures
        texts(r@) == chunks_from(pieces_of(toks@), false, max as nat),
{
    let ghost all = pieces_of(toks@);
    let mut c = Chunker { chunks: Vec::new(), cur: Vec::new(), stack: Vec::new() };
    let mut i: usize = 0;
    proof {
        assert(c@.chunks =~= Seq::empty());
        assert(c@.cur =~= Seq::empty());
        assert(c@.stack =~= Seq::empty());
    }
    while i < toks.len()
        invariant
            i <= toks.len(),
            all == pieces_of(toks@),
            max <= usize::MAX,
            c@ == after_pieces(all.take(i as int), false, max as nat),
        decreases toks.len() - i,
    {
        assert(all.take(i + 1).drop_last() =~= all.take(i as int));
        match &toks[i] {
            Token::Tag(tag) => {
                take_tag(&mut c, tag.as_slice(), false, max);
            },
            Token::Text(text) => {
                take_text(&mut c, text.as_slice(), max);
            },
        }
        i = i + 1;
    }
    assert(all.take(i as int) =~= all);
    push_closers(&mut c.cur, &c.stack);
    keep(&mut c.chunks, drop_white(c.cur.as_slice()));
    c.chunks
}

/// The chunks of the pieces that leave room for each other.
fn chunk_shown(toks: &Vec<Token>, max: u128) -> (r: Vec<String>)
    requires
        max <= usize::MAX,
    ensures
        texts(r@) == chunks_from(
            shown(pieces_of(toks@), toks@.len() as int, max as nat).pieces,
            true,
            max as nat,
        ),
{
    let ghost all = pieces_of(toks@);
    let mut c = Chunker { chunks: Vec::new(), cur: Vec::new(), stack: Vec::new() };
    let mut open: Vec<OpenTag> = Vec::new();
    let mut i: usize = 0;
    proof {
        assert(c@.chunks =~= Seq::empty());
        assert(c@.cur =~= Seq::empty());
        assert(c@.stack =~= Seq::empty());
        assert(openings(open@) =~= Seq::empty());
    }
    while i < toks.len()
        invariant
            i <= toks.len(),
            all == pieces_of(toks@),
            max <= usize::MAX,
            c@ == after_pieces(shown(all, i as int, max as nat).pieces, true, max as nat),
            openings(open@) == shown(all, i as int, max as nat).open,
        decreases toks.len() - i,
    {
        proof {
            let before = shown(all, i as int, max as nat).pieces;
            assert(before.push(all[i as int]).drop_last() =~= before);
            assert(all[i as int] == toks@[i as int]@);
            shown_tags_are_open(all, i as int, true, max as nat);
        }
        match &toks[i] {
            Token::Tag(tag) => {
                if note_tag(&mut open, &c.stack, toks, i, tag.as_slice(), max) {
                    take_tag(&mut c, tag.as_slice(), true, max);
                }
            },
            Token::Text(text) => {
                take_text(&mut c, text.as_slice(), max);
            },
        }
        i = i + 1;
    }
    push_closers(&mut c.cur, &c.stack);
    keep(&mut c.chunks, drop_white(c.cur.as_slice()));
    c.chunks
}

fn are_small(chunks: &Vec<String>, max: u128) -> (r: bool)
    requires
        max <= usize::MAX,
    ensures
        r == all_small(texts(chunks@), max as nat),
{
    let mut i: usize = 0;
    while i < chunks.len()
        invariant
            i <= chunks.len(),
            max <= usize::MAX,
            forall|k: int| 0 <= k < i ==> utf8_len(#[trigger] texts(chunks@)[k]) <= max,
        decreases chunks.len() - i,
    {
        let v = chars_of(chunks[i].as_str());
        assert(texts(chunks@)[i as int] == v@);
        if utf8_size(v.as_slice()) > max {
            return false;
        }
        i = i + 1;
    }
    true
}

/// Splits rendered HTML into chunks of at most `max` bytes. No character is ever split, and tags
/// that are open at the end of a chunk are closed there and opened again in the next one. Where
/// the tags are so long that a chunk would be too large, those that leave no room for a character
/// under them are left out with what closes them.
pub fn split_chunks(html: &str, max: usize) -> (r: Vec<String>)
    ensures
        texts(r@) == chunked(html@, max as nat),
        max >= 4 ==> forall|i: int| 0 <= i < r@.len() ==> utf8_len(#[trigger] texts(r@)[i]) <= max,
{
    proof {
        if max >= 4 {
            assert forall|i: int| 0 <= i < chunked(html@, max as nat).len() implies utf8_len(
                #[trigger] chunked(html@, max as nat)[i],
            ) <= max by {
                crate::render::chunk_laws::chunks_are_small(html@, max as nat, i);
            }
        }
    }
    let v = chars_of(html);
    let limit: u128 = max as u128;
    if utf8_size(v.as_slice()) <= limit {
        let mut r: Vec<String> = Vec::new();
        r.push(string_of(v.as_slice()));
        assert(texts(r@) =~= seq![html@]);
        return r;
    }
    let toks = tokenize(v.as_slice());
    let all = chunk_all(&toks, limit);
    if are_small(&all, limit) {
        return all;
    }
    chunk_shown(&toks, limit)
}

} // verus!
