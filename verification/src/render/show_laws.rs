//! What of a text reaches the reader: every word of it, every line end and every cell, in order.
use crate::render::chunks::{cut_at, fit, past_newline};
use crate::render::markdown::{parsed_marks, picked_html, MarkView, PickView, Span};
use crate::render::{
    after_mark, after_pick, column_count, column_width, ends_scheme, escaped, escaped_char,
    ignored, messages, padded_row, page, picking, safe_url, scheme_end, scheme_letters, table_html,
    table_lines, web_html, MESSAGE_LIMIT,
};
use crate::text::{
    ascii_alpha, ascii_lowered, blank, has, inner_parts_are_found, occurs_at, parts_are_found,
    trim_end, trim_start, trimmed, utf8_len, utf8_width, white,
};
use crate::text_laws::trimming_takes_white_space_off;
use vstd::prelude::*;

verus! {

// ---------------------------------------------------------------------------
// Escaping
// ---------------------------------------------------------------------------

/// Text is escaped part by part.
pub proof fn parts_are_escaped(a: Seq<char>, b: Seq<char>)
    ensures
        escaped(a + b) == escaped(a) + escaped(b),
    decreases b.len(),
{
    if b.len() == 0 {
        assert(a + b =~= a);
        assert(escaped(a) + escaped(b) =~= escaped(a));
    } else {
        parts_are_escaped(a, b.drop_last());
        assert((a + b).drop_last() =~= a + b.drop_last());
        assert(escaped(a) + escaped(b) =~= escaped(a) + escaped(b.drop_last()) + escaped_char(b.last()));
    }
}

/// Text without `&`, `<` and `>` is written as it stands.
pub proof fn harmless_text_stays(s: Seq<char>)
    requires
        forall|i: int| 0 <= i < s.len() ==> #[trigger] s[i] != '&' && s[i] != '<' && s[i] != '>',
    ensures
        escaped(s) == s,
    decreases s.len(),
{
    if s.len() > 0 {
        harmless_text_stays(s.drop_last());
        assert(s[s.len() - 1] == s.last());
        assert(s.drop_last() + seq![s.last()] =~= s);
    }
}

/// The three characters that HTML is sensitive to are written as the entities that stand for them.
pub proof fn entities_stand_for_their_characters(before: Seq<char>, behind: Seq<char>)
    ensures
        escaped(before + seq!['&'] + behind) == escaped(before) + "&amp;"@ + escaped(behind),
        escaped(before + seq!['<'] + behind) == escaped(before) + "&lt;"@ + escaped(behind),
        escaped(before + seq!['>'] + behind) == escaped(before) + "&gt;"@ + escaped(behind),
{
    one_character('&');
    one_character('<');
    one_character('>');
    parts_are_escaped(before, seq!['&']);
    parts_are_escaped(before, seq!['<']);
    parts_are_escaped(before, seq!['>']);
    parts_are_escaped(before + seq!['&'], behind);
    parts_are_escaped(before + seq!['<'], behind);
    parts_are_escaped(before + seq!['>'], behind);
}

proof fn one_character(c: char)
    ensures
        escaped(seq![c]) == escaped_char(c),
{
    assert(seq![c].drop_last() =~= Seq::<char>::empty());
    assert(escaped(seq![c]) =~= escaped_char(c)) by {
        reveal_with_fuel(escaped, 2);
    }
}

/// What was escaped can be read again: no two texts are written alike.
pub proof fn escaping_can_be_undone(a: Seq<char>, b: Seq<char>)
    requires
        escaped(a) == escaped(b),
    ensures
        a == b,
    decreases a.len() + b.len(),
{
    reveal_strlit("&amp;");
    reveal_strlit("&lt;");
    reveal_strlit("&gt;");
    if a.len() > 0 {
        starts_with_its_first(a);
    }
    if b.len() > 0 {
        starts_with_its_first(b);
    }
    if a.len() > 0 && b.len() > 0 {
        let (x, y) = (escaped_char(a[0]), escaped_char(b[0]));
        let (p, q) = (escaped(a.drop_first()), escaped(b.drop_first()));
        assert((x + p)[0] == x[0]);
        assert((y + q)[0] == y[0]);
        if x.len() > 1 {
            assert((x + p)[1] == x[1]);
        }
        if y.len() > 1 {
            assert((y + q)[1] == y[1]);
        }
        assert(a[0] == b[0]);
        assert(p =~= (x + p).skip(x.len() as int));
        assert(q =~= (y + q).skip(y.len() as int));
        escaping_can_be_undone(a.drop_first(), b.drop_first());
        assert(a =~= seq![a[0]] + a.drop_first());
        assert(b =~= seq![b[0]] + b.drop_first());
    } else {
        assert(a =~= b);
    }
}

proof fn starts_with_its_first(s: Seq<char>)
    requires
        s.len() > 0,
    ensures
        escaped(s) == escaped_char(s[0]) + escaped(s.drop_first()),
        escaped(s).len() > 0,
{
    reveal_strlit("&amp;");
    reveal_strlit("&lt;");
    reveal_strlit("&gt;");
    one_character(s[0]);
    parts_are_escaped(seq![s[0]], s.drop_first());
    assert(s =~= seq![s[0]] + s.drop_first());
}

// ---------------------------------------------------------------------------
// Pages
// ---------------------------------------------------------------------------

proof fn one_more_mark(marks: Seq<MarkView>, m: MarkView)
    ensures
        page(marks.push(m)) == after_mark(page(marks), m),
{
    assert(marks.push(m).drop_last() =~= marks);
}

/// What was written stays: the page of the first marks begins the page of all.
pub proof fn pages_only_grow(marks: Seq<MarkView>, k: int)
    requires
        0 <= k <= marks.len(),
    ensures
        page(marks.take(k)).out.len() <= page(marks).out.len(),
        page(marks).out.take(page(marks.take(k)).out.len() as int) == page(marks.take(k)).out,
    decreases marks.len() - k,
{
    if k == marks.len() {
        assert(marks.take(k) =~= marks);
        assert(page(marks).out.take(page(marks).out.len() as int) =~= page(marks).out);
    } else {
        pages_only_grow(marks, k + 1);
        let (p, q, all) = (page(marks.take(k)), page(marks.take(k + 1)), page(marks));
        assert(marks.take(k + 1).drop_last() =~= marks.take(k));
        assert(q.out.len() >= p.out.len() && q.out.take(p.out.len() as int) =~= p.out);
        assert(all.out.take(p.out.len() as int) =~= all.out.take(q.out.len() as int).take(p.out.len() as int));
    }
}

/// Where no table was started, nothing is held back for one.
pub proof fn tables_start_with_their_mark(marks: Seq<MarkView>)
    requires
        forall|k: int| 0 <= k < marks.len() ==> !(#[trigger] marks[k] matches MarkView::Start(Span::Table, _)),
    ensures
        !page(marks).in_table,
    decreases marks.len(),
{
    if marks.len() > 0 {
        let d = marks.drop_last();
        assert forall|k: int| 0 <= k < d.len() implies !(#[trigger] d[k] matches MarkView::Start(Span::Table, _)) by {
            assert(d[k] == marks[k]);
        }
        tables_start_with_their_mark(d);
        assert(marks[marks.len() - 1] == marks.last());
    }
}

/// A table is read from its first mark to its last, and at its end it stands on the page.
pub proof fn tables_end_with_their_mark(marks: Seq<MarkView>, url: Seq<char>)
    ensures
        page(marks.push(MarkView::Start(Span::Table, url))).in_table,
        !page(marks.push(MarkView::End(Span::Table))).in_table,
        page(marks).in_table ==> page(marks.push(MarkView::End(Span::Table))).out == page(marks).out + table_html(
            page(marks).table,
        ),
        page(marks).in_table ==> page(marks.push(MarkView::SoftBreak)).in_table && page(
            marks.push(MarkView::Text(url)),
        ).in_table && page(marks.push(MarkView::End(Span::TableRow))).in_table && page(
            marks.push(MarkView::End(Span::TableCell)),
        ).in_table,
{
    one_more_mark(marks, MarkView::Start(Span::Table, url));
    one_more_mark(marks, MarkView::End(Span::Table));
    one_more_mark(marks, MarkView::SoftBreak);
    one_more_mark(marks, MarkView::Text(url));
    one_more_mark(marks, MarkView::End(Span::TableRow));
    one_more_mark(marks, MarkView::End(Span::TableCell));
}

/// Some text stands on a page right behind what its first marks wrote.
pub open spec fn written_behind(marks: Seq<MarkView>, k: int, t: Seq<char>) -> bool {
    let n = page(marks.take(k)).out.len() as int;
    n + t.len() <= page(marks).out.len() && page(marks).out.subrange(n, n + t.len()) == t
}

proof fn stays_where_it_was_written(marks: Seq<MarkView>, k: int, t: Seq<char>)
    requires
        0 <= k < marks.len(),
        page(marks.take(k + 1)).out == page(marks.take(k)).out + t,
    ensures
        written_behind(marks, k, t),
{
    pages_only_grow(marks, k + 1);
    let (p, q, all) = (page(marks.take(k)), page(marks.take(k + 1)), page(marks));
    let n = p.out.len() as int;
    assert(all.out.subrange(n, n + t.len()) =~= all.out.take(q.out.len() as int).subrange(n, n + t.len()));
    assert(q.out.subrange(n, n + t.len()) =~= t);
}

/// Every soft or hard break of a text outside tables is a line end on its page, at the place where the
/// break stands: what was written before it stands before, and the next word starts a new line.
pub proof fn every_break_ends_a_line(marks: Seq<MarkView>, k: int)
    requires
        0 <= k < marks.len(),
        marks[k] is SoftBreak || marks[k] is HardBreak,
        forall|j: int| 0 <= j < k ==> !(#[trigger] marks[j] matches MarkView::Start(Span::Table, _)),
    ensures
        page(marks.take(k)).out.len() < page(marks).out.len(),
        page(marks).out[page(marks.take(k)).out.len() as int] == '\n',
        page(marks.take(k + 1)).out == page(marks.take(k)).out.push('\n'),
        page(marks).out.take(page(marks.take(k)).out.len() as int + 1) == page(marks.take(k)).out.push('\n'),
{
    let d = marks.take(k);
    assert forall|j: int| 0 <= j < d.len() implies !(#[trigger] d[j] matches MarkView::Start(Span::Table, _)) by {
        assert(d[j] == marks[j]);
    }
    tables_start_with_their_mark(d);
    breaks_outside_tables(d);
    assert(marks.take(k + 1) =~= d.push(marks[k]));
    pages_only_grow(marks, k + 1);
    let (p, q, all) = (page(d), page(marks.take(k + 1)), page(marks));
    assert(all.out.take(q.out.len() as int) == q.out);
    assert(q.out[p.out.len() as int] == '\n');
}

/// A break outside a table adds a line end to the page, and nothing else.
pub proof fn breaks_outside_tables(marks: Seq<MarkView>)
    requires
        !page(marks).in_table,
    ensures
        page(marks.push(MarkView::SoftBreak)).out == page(marks).out.push('\n'),
        page(marks.push(MarkView::HardBreak)).out == page(marks).out.push('\n'),
        !page(marks.push(MarkView::SoftBreak)).in_table,
        !page(marks.push(MarkView::HardBreak)).in_table,
{
    reveal_strlit("\n");
    one_more_mark(marks, MarkView::SoftBreak);
    one_more_mark(marks, MarkView::HardBreak);
    assert(page(marks).out + "\n"@ =~= page(marks).out.push('\n'));
}

/// Every text outside tables is shown, escaped, at its place among the other marks; so are raw HTML
/// and, between its tags, code.
pub proof fn every_text_is_shown(marks: Seq<MarkView>, k: int, t: Seq<char>)
    requires
        0 <= k < marks.len(),
        !page(marks.take(k)).in_table,
    ensures
        marks[k] == MarkView::Text(t) || marks[k] == MarkView::Html(t) || marks[k] == MarkView::InlineHtml(t) ==> written_behind(
            marks,
            k,
            escaped(t),
        ) && has(page(marks).out, escaped(t)),
        marks[k] == MarkView::Code(t) ==> written_behind(marks, k, "<code>"@ + escaped(t) + "</code>"@) && has(
            page(marks).out,
            escaped(t),
        ),
{
    assert(marks.take(k + 1) =~= marks.take(k).push(marks[k]));
    one_more_mark(marks.take(k), marks[k]);
    let n = page(marks.take(k)).out.len() as int;
    if marks[k] == MarkView::Text(t) || marks[k] == MarkView::Html(t) || marks[k] == MarkView::InlineHtml(t) {
        stays_where_it_was_written(marks, k, escaped(t));
        assert(occurs_at(page(marks).out, escaped(t), n));
    } else if marks[k] == MarkView::Code(t) {
        let w = "<code>"@ + escaped(t) + "</code>"@;
        stays_where_it_was_written(marks, k, w);
        assert(occurs_at(page(marks).out, w, n));
        parts_are_found("<code>"@, escaped(t), "</code>"@);
        inner_parts_are_found(page(marks).out, w, escaped(t));
    }
}

/// The page of some marks, the start of an element, a text and the end of the element.
pub open spec fn with_span(marks: Seq<MarkView>, span: Span, url: Seq<char>, t: Seq<char>) -> Seq<char> {
    page(marks.push(MarkView::Start(span, url)).push(MarkView::Text(t)).push(MarkView::End(span))).out
}

/// Formatted text is shown between the tags that stand for its format, a link with its address; blocks
/// end their line, and a paragraph is followed by an empty one.
pub proof fn formats_are_shown(marks: Seq<MarkView>, url: Seq<char>, t: Seq<char>)
    requires
        !page(marks).in_table,
        !page(marks).link_stripped,
    ensures
        with_span(marks, Span::Strong, url, t) == page(marks).out + "<b>"@ + escaped(t) + "</b>"@,
        with_span(marks, Span::Emphasis, url, t) == page(marks).out + "<i>"@ + escaped(t) + "</i>"@,
        with_span(marks, Span::Strikethrough, url, t) == page(marks).out + "<s>"@ + escaped(t) + "</s>"@,
        with_span(marks, Span::Heading, url, t) == page(marks).out + "<b>"@ + escaped(t) + "</b>\n"@,
        with_span(marks, Span::BlockQuote, url, t) == page(marks).out + "<blockquote>"@ + escaped(t) + "</blockquote>\n"@,
        with_span(marks, Span::CodeBlock, url, t) == page(marks).out + "<pre>"@ + escaped(t) + "</pre>\n"@,
        with_span(marks, Span::Item, url, t) == page(marks).out + "• "@ + escaped(t) + "\n"@,
        with_span(marks, Span::Paragraph, url, t) == page(marks).out + escaped(t) + "\n\n"@,
        with_span(marks, Span::Image, url, t) == page(marks).out + escaped(t),
        safe_url(url) ==> with_span(marks, Span::Link, url, t) == page(marks).out + ("<a href=\""@ + escaped(url) + "\">"@)
            + escaped(t) + "</a>"@,
        !safe_url(url) ==> with_span(marks, Span::Link, url, t) == page(marks).out + escaped(t),
        page(marks.push(MarkView::Rule)).out == page(marks).out + "——————\n"@,
{
    span_by_span(marks, Span::Strong, url, t);
    span_by_span(marks, Span::Emphasis, url, t);
    span_by_span(marks, Span::Strikethrough, url, t);
    span_by_span(marks, Span::Heading, url, t);
    span_by_span(marks, Span::BlockQuote, url, t);
    span_by_span(marks, Span::CodeBlock, url, t);
    span_by_span(marks, Span::Item, url, t);
    span_by_span(marks, Span::Paragraph, url, t);
    span_by_span(marks, Span::Image, url, t);
    span_by_span(marks, Span::Link, url, t);
    one_more_mark(marks, MarkView::Rule);
}

proof fn span_by_span(marks: Seq<MarkView>, span: Span, url: Seq<char>, t: Seq<char>)
    ensures
        with_span(marks, span, url, t) == after_mark(
            after_mark(after_mark(page(marks), MarkView::Start(span, url)), MarkView::Text(t)),
            MarkView::End(span),
        ).out,
{
    let a = marks.push(MarkView::Start(span, url));
    let b = a.push(MarkView::Text(t));
    one_more_mark(marks, MarkView::Start(span, url));
    one_more_mark(a, MarkView::Text(t));
    one_more_mark(b, MarkView::End(span));
}

/// A link whose address is not safe loses its tags and nothing else, and the next link is written
/// again.
pub proof fn unsafe_links_keep_their_text(marks: Seq<MarkView>, bad: Seq<char>, good: Seq<char>, t: Seq<char>, u: Seq<char>)
    requires
        !page(marks).in_table,
        !page(marks).link_stripped,
        !safe_url(bad),
        safe_url(good),
    ensures
        ({
            let first = marks.push(MarkView::Start(Span::Link, bad)).push(MarkView::Text(t)).push(MarkView::End(Span::Link));
            with_span(first, Span::Link, good, u) == page(marks).out + escaped(t) + ("<a href=\""@ + escaped(good) + "\">"@)
                + escaped(u) + "</a>"@
        }),
{
    let a = marks.push(MarkView::Start(Span::Link, bad));
    let b = a.push(MarkView::Text(t));
    let c = b.push(MarkView::End(Span::Link));
    one_more_mark(marks, MarkView::Start(Span::Link, bad));
    one_more_mark(a, MarkView::Text(t));
    one_more_mark(b, MarkView::End(Span::Link));
    formats_are_shown(c, good, u);
}

/// What fits into one message is sent as it stands on the page.
pub proof fn short_pages_are_one_message(markdown: Seq<char>, marks: Seq<MarkView>)
    requires
        !blank(markdown),
        trimmed(page(marks).out).len() > 0,
        utf8_len(trimmed(page(marks).out)) <= MESSAGE_LIMIT,
    ensures
        messages(markdown, marks) == seq![trimmed(page(marks).out)],
{
}

// ---------------------------------------------------------------------------
// Tables
// ---------------------------------------------------------------------------

/// In a table the texts of a cell make up the cell, the cells of a row the row, and the rows the table.
pub proof fn cells_are_gathered(marks: Seq<MarkView>, url: Seq<char>, t: Seq<char>, u: Seq<char>)
    requires
        page(marks).in_table,
    ensures
        ({
            let cell = marks.push(MarkView::Start(Span::TableCell, url)).push(MarkView::Text(t)).push(MarkView::Code(u)).push(
                MarkView::End(Span::TableCell),
            );
            &&& page(cell).row == page(marks).row.push(trimmed(t + u))
            &&& page(cell).table == page(marks).table
            &&& page(cell).in_table
            &&& page(cell).out == page(marks).out
        }),
        page(marks.push(MarkView::Start(Span::TableRow, url))).row == Seq::<Seq<char>>::empty(),
        page(marks.push(MarkView::Start(Span::TableHead, url))).row == Seq::<Seq<char>>::empty(),
        page(marks.push(MarkView::End(Span::TableRow))).table == page(marks).table.push(page(marks).row),
        page(marks.push(MarkView::End(Span::TableHead))).table == page(marks).table.push(page(marks).row),
{
    let a = marks.push(MarkView::Start(Span::TableCell, url));
    let b = a.push(MarkView::Text(t));
    let c = b.push(MarkView::Code(u));
    one_more_mark(marks, MarkView::Start(Span::TableCell, url));
    one_more_mark(a, MarkView::Text(t));
    one_more_mark(b, MarkView::Code(u));
    one_more_mark(c, MarkView::End(Span::TableCell));
    assert(Seq::<char>::empty() + t + u =~= t + u);
    one_more_mark(marks, MarkView::Start(Span::TableRow, url));
    one_more_mark(marks, MarkView::Start(Span::TableHead, url));
    one_more_mark(marks, MarkView::End(Span::TableRow));
    one_more_mark(marks, MarkView::End(Span::TableHead));
}

/// Inside a table nothing is written until the table ends: formats and breaks leave no trace, and only
/// text and code go into a cell.
pub proof fn tables_are_held_back(marks: Seq<MarkView>, m: MarkView)
    requires
        page(marks).in_table,
        m != MarkView::End(Span::Table),
    ensures
        page(marks.push(m)).out == page(marks).out,
        page(marks.push(m)).in_table,
        !(m is Text) && !(m is Code) && !(m matches MarkView::Start(Span::TableCell, _)) ==> page(marks.push(m)).cell == page(
            marks,
        ).cell,
        page(marks.push(m)).link_stripped == page(marks).link_stripped,
{
    one_more_mark(marks, m);
}

/// A column is as wide as its widest cell, and a table has as many columns as its longest row.
pub proof fn columns_hold_their_cells(table: Seq<Seq<Seq<char>>>, i: int, c: int)
    requires
        0 <= i < table.len(),
    ensures
        table[i].len() <= column_count(table),
        0 <= c < table[i].len() ==> table[i][c].len() <= column_width(table, c),
        exists|k: int| 0 <= k < table.len() && (#[trigger] table[k]).len() == column_count(table),
        column_width(table, c) == 0 || exists|k: int|
            0 <= k < table.len() && 0 <= c < (#[trigger] table[k]).len() && table[k][c].len() == column_width(table, c),
    decreases table.len(),
{
    let d = table.drop_last();
    if d.len() > 0 {
        columns_hold_their_cells(d, if i < d.len() { i } else { 0 }, c);
        let k = choose|k: int| 0 <= k < d.len() && (#[trigger] d[k]).len() == column_count(d);
        assert(table[k] == d[k]);
        if column_width(d, c) != 0 {
            let w = choose|w: int| 0 <= w < d.len() && 0 <= c < (#[trigger] d[w]).len() && d[w][c].len() == column_width(d, c);
            assert(table[w] == d[w]);
        }
        if i < d.len() {
            assert(table[i] == d[i]);
        }
    } else {
        assert(column_count(d) == 0);
        assert(column_width(d, c) == 0);
    }
    assert(table[table.len() - 1] == table.last());
}

/// The columns of a table are aligned: a column starts at the same place in every row.
pub proof fn columns_are_aligned(table: Seq<Seq<Seq<char>>>, i: int, j: int, n: int)
    requires
        0 <= i < table.len(),
        0 <= j < table.len(),
        0 <= n,
    ensures
        padded_row(table, table[i], n).len() == padded_row(table, table[j], n).len(),
    decreases n,
{
    if n > 0 {
        columns_are_aligned(table, i, j, n - 1);
        columns_hold_their_cells(table, i, n - 1);
        columns_hold_their_cells(table, j, n - 1);
    }
}

proof fn rows_only_grow(table: Seq<Seq<Seq<char>>>, row: Seq<Seq<char>>, n: int, m: int)
    requires
        0 <= n <= m,
    ensures
        padded_row(table, row, n).len() <= padded_row(table, row, m).len(),
        padded_row(table, row, m).take(padded_row(table, row, n).len() as int) == padded_row(table, row, n),
    decreases m,
{
    let (a, b) = (padded_row(table, row, n), padded_row(table, row, m));
    if n == m {
        assert(b.take(a.len() as int) =~= a);
    } else {
        rows_only_grow(table, row, n, m - 1);
        let mid = padded_row(table, row, m - 1);
        assert(b.take(a.len() as int) =~= mid.take(a.len() as int));
    }
}

/// A cell stands in the line of its row where its column starts.
pub proof fn cells_stand_in_their_column(table: Seq<Seq<Seq<char>>>, row: Seq<Seq<char>>, c: int, n: int)
    requires
        0 <= c < n,
        c < row.len(),
    ensures
        ({
            let at = padded_row(table, row, c).len() as int;
            let line = padded_row(table, row, n);
            at + row[c].len() <= line.len() && line.subrange(at, at + row[c].len()) == row[c]
        }),
{
    rows_only_grow(table, row, c + 1, n);
    let at = padded_row(table, row, c).len() as int;
    let short = padded_row(table, row, c + 1);
    let line = padded_row(table, row, n);
    assert(short.subrange(at, at + row[c].len()) =~= row[c]);
    assert(line.subrange(at, at + row[c].len()) =~= line.take(short.len() as int).subrange(at, at + row[c].len()));
}

proof fn trimming_keeps_ink(s: Seq<char>, k: int)
    requires
        0 <= k < s.len(),
        !white(s[k]),
    ensures
        k < trim_end(s).len() <= s.len(),
        trim_end(s) == s.take(trim_end(s).len() as int),
    decreases s.len(),
{
    if white(s.last()) {
        trimming_keeps_ink(s.drop_last(), k);
        assert(s.drop_last().take(trim_end(s).len() as int) =~= s.take(trim_end(s).len() as int));
    } else {
        assert(s.take(s.len() as int) =~= s);
    }
}

proof fn lines_only_grow(table: Seq<Seq<Seq<char>>>, n: int, m: int)
    requires
        0 <= n <= m,
    ensures
        table_lines(table, n).len() <= table_lines(table, m).len(),
        table_lines(table, m).take(table_lines(table, n).len() as int) == table_lines(table, n),
    decreases m,
{
    let (a, b) = (table_lines(table, n), table_lines(table, m));
    if n == m {
        assert(b.take(a.len() as int) =~= a);
    } else {
        lines_only_grow(table, n, m - 1);
        let mid = table_lines(table, m - 1);
        assert(b.take(a.len() as int) =~= mid.take(a.len() as int));
    }
}

/// Every cell of a table is shown, escaped, on the line of its row.
pub proof fn every_cell_is_shown(table: Seq<Seq<Seq<char>>>, i: int, c: int)
    requires
        0 <= i < table.len(),
        0 <= c < table[i].len(),
        table[i][c].len() > 0,
        !white(table[i][c].last()),
    ensures
        has(table_html(table), escaped(table[i][c])),
        has(table_html(table), escaped(trim_end(padded_row(table, table[i], column_count(table) as int))) + seq!['\n']),
{
    let n = column_count(table) as int;
    let row = table[i];
    let cell = row[c];
    let line = padded_row(table, row, n);
    let at = padded_row(table, row, c).len() as int;
    columns_hold_their_cells(table, i, c);
    cells_stand_in_their_column(table, row, c, n);
    assert(line.subrange(at, at + cell.len())[cell.len() - 1] == cell.last());
    trimming_keeps_ink(line, at + cell.len() - 1);
    let t = trim_end(line);
    let (a, b) = (t.take(at), t.skip(at + cell.len()));
    assert(t =~= a + cell + b) by {
        assert(t.subrange(at, at + cell.len()) =~= line.subrange(at, at + cell.len()));
    }
    parts_are_escaped(a, cell);
    parts_are_escaped(a + cell, b);
    parts_are_found(escaped(a), escaped(cell), escaped(b));
    let above = table_lines(table, i);
    let upto = table_lines(table, i + 1);
    let all = table_lines(table, table.len() as int);
    lines_only_grow(table, i + 1, table.len() as int);
    let rest = all.skip(upto.len() as int) + "</pre>\n"@;
    let own = escaped(t) + seq!['\n'];
    assert(all =~= upto + all.skip(upto.len() as int));
    assert(upto =~= above + own);
    assert(table_html(table) =~= above + own + rest);
    parts_are_found(above, own, rest);
    parts_are_found(Seq::empty(), escaped(t), seq!['\n']);
    assert(Seq::<char>::empty() + escaped(t) + seq!['\n'] =~= own);
    inner_parts_are_found(own, escaped(t), escaped(cell));
    inner_parts_are_found(table_html(table), own, escaped(cell));
}

// ---------------------------------------------------------------------------
// Addresses
// ---------------------------------------------------------------------------

proof fn scheme_ends_at(s: Seq<char>, k: int)
    requires
        0 <= k <= s.len(),
        k < s.len() ==> ends_scheme(s[k]),
        forall|i: int| 0 <= i < k ==> !ends_scheme(#[trigger] s[i]),
    ensures
        scheme_end(s) == k,
    decreases k,
{
    if k > 0 {
        assert(!ends_scheme(s[0]));
        assert forall|i: int| 0 <= i < k - 1 implies !ends_scheme(#[trigger] s.drop_first()[i]) by {
            assert(s.drop_first()[i] == s[i + 1]);
        }
        scheme_ends_at(s.drop_first(), k - 1);
    }
}

proof fn letters_all_count(s: Seq<char>)
    requires
        forall|i: int| 0 <= i < s.len() ==> !ignored(#[trigger] s[i]),
    ensures
        scheme_letters(s) == s,
    decreases s.len(),
{
    if s.len() > 0 {
        letters_all_count(s.drop_last());
        assert(s[s.len() - 1] == s.last());
        assert(s.drop_last().push(s.last()) =~= s);
    }
}

/// An address with a scheme is safe exactly where the scheme is one of http, https, mailto and tel,
/// whatever the case of its letters.
pub proof fn schemes_decide(scheme: Seq<char>, rest: Seq<char>)
    requires
        scheme.len() > 0,
        forall|i: int| 0 <= i < scheme.len() ==> ascii_alpha(#[trigger] scheme[i]),
    ensures
        ({
            let s = ascii_lowered(scheme);
            safe_url(scheme + seq![':'] + rest) <==> s == "http"@ || s == "https"@ || s == "mailto"@ || s == "tel"@
        }),
{
    let url = scheme + seq![':'] + rest;
    let k = scheme.len() as int;
    assert(url[0] == scheme[0]);
    assert(!white(scheme[0]));
    assert(trim_start(url) == url);
    assert forall|i: int| 0 <= i < k implies !ends_scheme(#[trigger] url[i]) by {
        assert(url[i] == scheme[i]);
    }
    assert(url[k] == ':');
    scheme_ends_at(url, k);
    assert(url.take(k) =~= scheme);
    letters_all_count(scheme);
}

/// An address without a scheme is safe: one that has no colon, or a slash, a question mark or a hash
/// before the first one.
pub proof fn addresses_without_a_scheme_are_safe(url: Seq<char>, k: int)
    requires
        url.len() > 0 && !white(url[0]),
        0 <= k <= url.len(),
        k < url.len() ==> url[k] == '/' || url[k] == '?' || url[k] == '#',
        forall|i: int| 0 <= i < k ==> #[trigger] url[i] != ':',
    ensures
        safe_url(url),
{
    first_end(url, k);
}

proof fn first_end(url: Seq<char>, k: int)
    requires
        0 <= k <= url.len(),
        k < url.len() ==> url[k] == '/' || url[k] == '?' || url[k] == '#',
        forall|i: int| 0 <= i < k ==> #[trigger] url[i] != ':',
    ensures
        0 <= scheme_end(url) <= k,
        scheme_end(url) < url.len() ==> url[scheme_end(url)] != ':',
    decreases k,
{
    if k > 0 && !ends_scheme(url[0]) {
        let d = url.drop_first();
        assert forall|i: int| 0 <= i < k - 1 implies #[trigger] d[i] != ':' by {
            assert(d[i] == url[i + 1]);
        }
        first_end(d, k - 1);
    } else if k > 0 {
        assert(url[0] != ':');
    }
}

proof fn letters_in_parts(a: Seq<char>, b: Seq<char>)
    ensures
        scheme_letters(a + b) == scheme_letters(a) + scheme_letters(b),
    decreases b.len(),
{
    if b.len() == 0 {
        assert(a + b =~= a);
        assert(scheme_letters(a) + scheme_letters(b) =~= scheme_letters(a));
    } else {
        letters_in_parts(a, b.drop_last());
        assert((a + b).drop_last() =~= a + b.drop_last());
        if !ignored(b.last()) {
            assert((scheme_letters(a) + scheme_letters(b.drop_last())).push(b.last()) =~= scheme_letters(a) + scheme_letters(b));
        }
    }
}

proof fn scheme_end_is_first(s: Seq<char>)
    ensures
        0 <= scheme_end(s) <= s.len(),
        scheme_end(s) < s.len() ==> ends_scheme(s[scheme_end(s)]),
        forall|i: int| 0 <= i < scheme_end(s) ==> !ends_scheme(#[trigger] s[i]),
    decreases s.len(),
{
    if s.len() > 0 && !ends_scheme(s[0]) {
        let d = s.drop_first();
        scheme_end_is_first(d);
        assert forall|i: int| 0 <= i < scheme_end(s) implies !ends_scheme(#[trigger] s[i]) by {
            if i > 0 {
                assert(s[i] == d[i - 1]);
            }
        }
    }
}

/// A space or a control character inside an address makes no difference to its safety.
pub proof fn hidden_characters_make_no_difference(a: Seq<char>, c: char, b: Seq<char>)
    requires
        a.len() > 0 && !white(a[0]),
        c == ' ' || c as u32 <= 0x1F || 0x7F <= c as u32 <= 0x9F,
    ensures
        safe_url(a + seq![c] + b) == safe_url(a + b),
{
    let (x, y) = (a + seq![c] + b, a + b);
    assert(x[0] == a[0] && y[0] == a[0]);
    assert(trim_start(x) == x && trim_start(y) == y);
    let k = scheme_end(y);
    let n = a.len() as int;
    scheme_end_is_first(y);
    assert(!ends_scheme(c));
    if k < n {
        assert forall|i: int| 0 <= i < k implies !ends_scheme(#[trigger] x[i]) by {
            assert(x[i] == y[i]);
        }
        assert(x[k] == y[k]);
        scheme_ends_at(x, k);
        assert(x.take(k) =~= y.take(k));
    } else {
        assert forall|i: int| 0 <= i < k + 1 implies !ends_scheme(#[trigger] x[i]) by {
            if i < n {
                assert(x[i] == y[i]);
            } else if i > n {
                assert(x[i] == y[i - 1]);
            }
        }
        if k < y.len() {
            assert(x[k + 1] == y[k]);
        }
        scheme_ends_at(x, k + 1);
        let tail = b.take(k - n);
        assert(y.take(k) =~= a + tail);
        assert(x.take(k + 1) =~= a + seq![c] + tail);
        letters_in_parts(a, tail);
        letters_in_parts(a, seq![c]);
        letters_in_parts(a + seq![c], tail);
        assert(scheme_letters(seq![c]) =~= Seq::<char>::empty()) by {
            assert(seq![c].drop_last() =~= Seq::<char>::empty());
            reveal_with_fuel(scheme_letters, 2);
        }
        assert(scheme_letters(a) + Seq::<char>::empty() + scheme_letters(tail) =~= scheme_letters(a) + scheme_letters(tail));
    }
}

// ---------------------------------------------------------------------------
// The browser's page
// ---------------------------------------------------------------------------

/// All that is harmless reaches the browser's page: every mark that is neither raw HTML nor of a link or
/// an image is handed on as it is, and so is the start of each with a safe address; raw HTML is handed
/// on as text.
pub proof fn everything_harmless_is_picked(marks: Seq<MarkView>, k: int)
    requires
        0 <= k < marks.len(),
        marks.len() <= usize::MAX,
    ensures
        ({
            let p = picking(marks).picks;
            match marks[k] {
                MarkView::Html(t) => p.contains(PickView::Text(t)),
                MarkView::InlineHtml(t) => p.contains(PickView::Text(t)),
                MarkView::Start(span, url) => (span != Span::Link && span != Span::Image) || safe_url(url) ==> p.contains(
                    PickView::Same(k as usize),
                ),
                MarkView::End(span) => span != Span::Link && span != Span::Image ==> p.contains(PickView::Same(k as usize)),
                _ => p.contains(PickView::Same(k as usize)),
            }
        }),
    decreases marks.len(),
{
    let d = marks.drop_last();
    let (p, q) = (picking(marks).picks, picking(d).picks);
    if k < d.len() {
        everything_harmless_is_picked(d, k);
        assert(d[k] == marks[k]);
        assert forall|x: PickView| q.contains(x) implies #[trigger] p.contains(x) by {
            let i = q.index_of(x);
            assert(p[i] == x);
        }
    } else if p.len() > q.len() {
        assert(p[q.len() as int] == p.last());
        assert(p.contains(p.last()));
    }
}

/// Where all addresses are safe, every mark leaves one pick, in order.
pub proof fn safe_texts_are_picked_whole(marks: Seq<MarkView>)
    requires
        forall|k: int|
            0 <= k < marks.len() ==> (#[trigger] marks[k] matches MarkView::Start(span, url) ==> safe_url(url)),
        marks.len() <= usize::MAX,
    ensures
        picking(marks).links == 0 && picking(marks).images == 0,
        picking(marks).picks.len() == marks.len(),
        forall|k: int|
            0 <= k < marks.len() ==> #[trigger] picking(marks).picks[k] == (match marks[k] {
                MarkView::Html(t) => PickView::Text(t),
                MarkView::InlineHtml(t) => PickView::Text(t),
                _ => PickView::Same(k as usize),
            }),
    decreases marks.len(),
{
    if marks.len() > 0 {
        let d = marks.drop_last();
        assert forall|k: int| 0 <= k < d.len() implies (#[trigger] d[k] matches MarkView::Start(span, url) ==> safe_url(url)) by {
            assert(d[k] == marks[k]);
        }
        safe_texts_are_picked_whole(d);
        assert(marks[marks.len() - 1] == marks.last());
        assert forall|k: int| 0 <= k < marks.len() implies #[trigger] picking(marks).picks[k] == (match marks[k] {
            MarkView::Html(t) => PickView::Text(t),
            MarkView::InlineHtml(t) => PickView::Text(t),
            _ => PickView::Same(k as usize),
        }) by {
            if k < d.len() {
                assert(picking(marks).picks[k] == picking(d).picks[k]);
            }
        }
    }
}

/// A link with an unsafe address loses its start and its own end; the end of the next safe link stays.
pub proof fn unsafe_links_lose_both_tags(marks: Seq<MarkView>, bad: Seq<char>, t: Seq<char>)
    requires
        !safe_url(bad),
        marks.len() + 3 <= usize::MAX,
    ensures
        ({
            let all = marks.push(MarkView::Start(Span::Link, bad)).push(MarkView::Text(t)).push(MarkView::End(Span::Link));
            &&& picking(all).picks == picking(marks).picks.push(PickView::Same((marks.len() + 1) as usize))
            &&& picking(all).links == picking(marks).links
        }),
        ({
            let all = marks.push(MarkView::Start(Span::Image, bad)).push(MarkView::Text(t)).push(MarkView::End(Span::Image));
            &&& picking(all).picks == picking(marks).picks.push(PickView::Same((marks.len() + 1) as usize))
            &&& picking(all).images == picking(marks).images
        }),
{
    let a = marks.push(MarkView::Start(Span::Link, bad));
    let b = a.push(MarkView::Text(t));
    one_more_pick(marks, MarkView::Start(Span::Link, bad));
    one_more_pick(a, MarkView::Text(t));
    one_more_pick(b, MarkView::End(Span::Link));
    let x = marks.push(MarkView::Start(Span::Image, bad));
    let y = x.push(MarkView::Text(t));
    one_more_pick(marks, MarkView::Start(Span::Image, bad));
    one_more_pick(x, MarkView::Text(t));
    one_more_pick(y, MarkView::End(Span::Image));
}

proof fn one_more_pick(marks: Seq<MarkView>, m: MarkView)
    ensures
        picking(marks.push(m)) == after_pick(picking(marks), m, marks.len() as usize),
{
    assert(marks.push(m).drop_last() =~= marks);
}

// ---------------------------------------------------------------------------
// Where long pages are cut
// ---------------------------------------------------------------------------

proof fn past_newline_is_last(s: Seq<char>, n: int)
    requires
        0 <= n <= s.len(),
    ensures
        0 <= past_newline(s, n) <= n,
        past_newline(s, n) > 0 ==> s[past_newline(s, n) - 1] == '\n',
        forall|i: int| past_newline(s, n) <= i < n ==> #[trigger] s[i] != '\n',
    decreases n,
{
    if n > 0 && s[n - 1] != '\n' {
        past_newline_is_last(s, n - 1);
    }
}

proof fn fit_is_most(s: Seq<char>, bytes: int)
    ensures
        0 <= fit(s, bytes) <= s.len(),
        bytes >= 0 ==> utf8_len(s.take(fit(s, bytes))) <= bytes,
        bytes >= 0 && fit(s, bytes) < s.len() ==> utf8_len(s.take(fit(s, bytes) + 1)) > bytes,
    decreases s.len(),
{
    assert(s.take(0) =~= Seq::<char>::empty());
    if s.len() > 0 {
        let (w, rest) = (utf8_width(s[0]) as int, s.drop_first());
        assert(utf8_len(seq![s[0]]) == w) by {
            assert(seq![s[0]].drop_last() =~= Seq::<char>::empty());
            reveal_with_fuel(utf8_len, 2);
        }
        if w <= bytes {
            fit_is_most(rest, bytes - w);
            let n = fit(rest, bytes - w);
            assert(s.take(n + 1) =~= seq![s[0]] + rest.take(n));
            crate::text::utf8_len_concat(seq![s[0]], rest.take(n));
            if n < rest.len() {
                assert(s.take(n + 2) =~= seq![s[0]] + rest.take(n + 1));
                crate::text::utf8_len_concat(seq![s[0]], rest.take(n + 1));
            }
        } else {
            assert(s.take(1) =~= seq![s[0]]);
        }
    }
}

/// A long text is cut behind the last line end that fits, and where none fits as late as possible: the
/// part before the cut fits, and either a line ends there and none ends in what would still have
/// fitted, or one more character would not have fitted.
pub proof fn texts_are_cut_at_line_ends(s: Seq<char>, bytes: int)
    requires
        bytes >= 0,
    ensures
        ({
            let k = cut_at(s, bytes);
            &&& 0 <= k <= s.len()
            &&& utf8_len(s.take(k)) <= bytes
            &&& forall|i: int|
                k <= i < s.len() && #[trigger] s[i] == '\n' && utf8_len(s.take(i + 1)) <= bytes ==> false
            &&& (k > 0 && s[k - 1] == '\n') || k == s.len() || utf8_len(s.take(k + 1)) > bytes
            &&& forall|i: int|
                0 <= i < s.len() && #[trigger] s[i] == '\n' && utf8_len(s.take(i + 1)) <= bytes ==> k > 0 && s[k - 1] == '\n'
        }),
{
    let n = fit(s, bytes);
    fit_is_most(s, bytes);
    past_newline_is_last(s, n);
    let k = cut_at(s, bytes);
    shorter_is_smaller(s, k, n);
    assert forall|i: int| k <= i < s.len() && #[trigger] s[i] == '\n' && utf8_len(s.take(i + 1)) <= bytes implies false by {
        if i < n {
            assert(s[i] != '\n' || i < past_newline(s, n));
        } else {
            shorter_is_smaller(s, n + 1, i + 1);
        }
    }
    assert forall|i: int| 0 <= i < s.len() && #[trigger] s[i] == '\n' && utf8_len(s.take(i + 1)) <= bytes implies k > 0
        && s[k - 1] == '\n' by {
        if i < n {
            assert(i < past_newline(s, n));
        } else {
            shorter_is_smaller(s, n + 1, i + 1);
        }
    }
}

proof fn shorter_is_smaller(s: Seq<char>, a: int, b: int)
    requires
        0 <= a <= b <= s.len(),
    ensures
        utf8_len(s.take(a)) <= utf8_len(s.take(b)),
{
    assert(s.take(b) =~= s.take(a) + s.subrange(a, b));
    crate::text::utf8_len_concat(s.take(a), s.subrange(a, b));
}

/// Columns stand two blanks apart, each as wide as its widest cell.
pub proof fn columns_stand_apart(table: Seq<Seq<Seq<char>>>, i: int, c: int)
    requires
        0 <= i < table.len(),
        0 <= c,
        c + 1 < column_count(table),
    ensures
        ({
            let before = padded_row(table, table[i], c);
            let line = padded_row(table, table[i], c + 1);
            &&& line.len() == before.len() + column_width(table, c) + 2
            &&& line[line.len() - 1] == ' ' && line[line.len() - 2] == ' '
        }),
        padded_row(table, table[i], 0).len() == 0,
{
    reveal_strlit("  ");
    assert("  "@.len() == 2);
    columns_hold_their_cells(table, i, c);
}

/// A page for the browser has no white space at its ends, and nothing to show for a blank text.
pub proof fn web_pages_have_clean_ends(markdown: Seq<char>)
    ensures
        blank(markdown) ==> web_html(markdown).len() == 0,
        web_html(markdown).len() > 0 ==> !white(web_html(markdown)[0]) && !white(web_html(markdown).last()),
        !blank(markdown) ==> web_html(markdown) == trimmed(
            picked_html(markdown, picking(parsed_marks(markdown)).picks),
        ),
{
    if !blank(markdown) {
        trimming_takes_white_space_off(picked_html(markdown, picking(parsed_marks(markdown)).picks));
    }
}

} // verus!
