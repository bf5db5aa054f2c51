//! Rendering of markdown into transport-specific formats: the HTML subset of a chat client, and
//! complete HTML for a browser.
pub mod chunk_laws;
pub mod chunks;
pub mod markdown;
pub mod nesting_laws;
pub mod page_laws;
pub mod show_laws;

use crate::render::chunks::{chunked, split_chunks};
use crate::render::markdown::{
    marks_of, parse_marks, parsed_marks, picked_html, picks_of, write_picks, Mark, MarkView, Pick, PickView, Span,
};
use crate::render::page_laws::messages_are_small;
use crate::text::{
    blank, chars_of, contains, control, is_blank, is_control, same, skip_white, str_trim,
    string_of, texts, to_ascii_lower, trim_start, trimmed, ascii_lowered, trim_end, drop_white, utf8_len,
};
use vstd::prelude::*;

verus! {

// ---------------------------------------------------------------------------
// Escaping
// ---------------------------------------------------------------------------

/// The replacement of one character.
pub open spec fn escaped_char(c: char) -> Seq<char> {
    if c == '&' {
        "&amp;"@
    } else if c == '<' {
        "&lt;"@
    } else if c == '>' {
        "&gt;"@
    } else {
        seq![c]
    }
}

/// The text with the three characters that HTML is sensitive to replaced.
pub open spec fn escaped(s: Seq<char>) -> Seq<char>
    decreases s.len(),
{
    if s.len() == 0 {
        Seq::empty()
    } else {
        escaped(s.drop_last()) + escaped_char(s.last())
    }
}

/// Escaped text holds no `<` and no `>`.
pub proof fn escaped_text_has_no_tags(s: Seq<char>)
    ensures
        !escaped(s).contains('<'),
        !escaped(s).contains('>'),
    decreases s.len(),
{
    if s.len() > 0 {
        escaped_text_has_no_tags(s.drop_last());
        reveal_strlit("&amp;");
        reveal_strlit("&lt;");
        reveal_strlit("&gt;");
        let a = escaped(s.drop_last());
        let b = escaped_char(s.last());
        assert forall|i: int| 0 <= i < escaped(s).len() implies escaped(s)[i] != '<' && escaped(
            s,
        )[i] != '>' by {
            if i < a.len() {
                assert(escaped(s)[i] == a[i]);
                assert(a.contains(a[i]));
            } else {
                assert(escaped(s)[i] == b[i - a.len()]);
            }
        }
    }
}

/// Escapes the three characters that HTML is sensitive to.
pub fn escape_html(s: &str) -> (r: String)
    ensures
        r@ == escaped(s@),
{
    let v = chars_of(s);
    let mut out = String::new();
    let mut i: usize = 0;
    while i < v.len()
        invariant
            i <= v.len(),
            out@ == escaped(v@.take(i as int)),
        decreases v.len() - i,
    {
        let c = v[i];
        assert(v@.take(i + 1).drop_last() =~= v@.take(i as int));
        if c == '&' {
            out.append("&amp;");
        } else if c == '<' {
            out.append("&lt;");
        } else if c == '>' {
            out.append("&gt;");
        } else {
            out.push(c);
            assert(out@ =~= escaped(v@.take(i as int)) + seq![c]);
        }
        i = i + 1;
    }
    assert(v@.take(i as int) =~= v@);
    out
}

// ---------------------------------------------------------------------------
// Safe links
// ---------------------------------------------------------------------------

/// The character ends the part of an address in which a scheme can stand.
pub open spec fn ends_scheme(c: char) -> bool {
    c == ':' || c == '/' || c == '?' || c == '#'
}

/// The index of the first character that ends the scheme part, or the length.
pub open spec fn scheme_end(s: Seq<char>) -> int
    decreases s.len(),
{
    if s.len() == 0 || ends_scheme(s[0]) {
        0
    } else {
        1 + scheme_end(s.drop_first())
    }
}

/// The character is ignored inside a scheme.
pub open spec fn ignored(c: char) -> bool {
    c == ' ' || control(c)
}

/// The characters of a scheme that count.
pub open spec fn scheme_letters(s: Seq<char>) -> Seq<char>
    decreases s.len(),
{
    if s.len() == 0 {
        Seq::empty()
    } else if ignored(s.last()) {
        scheme_letters(s.drop_last())
    } else {
        scheme_letters(s.drop_last()).push(s.last())
    }
}

/// The schemes that may become clickable.
pub open spec fn allowed_scheme(s: Seq<char>) -> bool {
    s == "http"@ || s == "https"@ || s == "mailto"@ || s == "tel"@
}

/// An address that may become clickable: one without a scheme, or one whose scheme is allowed,
/// whatever its case and leaving white space and control characters aside.
pub open spec fn safe_url(url: Seq<char>) -> bool {
    let s = trim_start(url);
    let k = scheme_end(s);
    k < s.len() && s[k] == ':' ==> allowed_scheme(ascii_lowered(scheme_letters(s.take(k))))
}

/// Whether an address may become a clickable link or an image source.
pub fn is_safe_url(url: &str) -> (r: bool)
    ensures
        r == safe_url(url@),
{
    let v = chars_of(url);
    let s = skip_white(v.as_slice());
    let mut scheme: Vec<char> = Vec::new();
    let mut i: usize = 0;
    proof {
        assert(s@.skip(0) =~= s@);
        assert(scheme@ =~= scheme_letters(s@.take(0)));
    }
    while i < s.len()
        invariant
            i <= s.len(),
            s@ == trim_start(url@),
            scheme_end(s@) == i + scheme_end(s@.skip(i as int)),
            scheme@ == scheme_letters(s@.take(i as int)),
        decreases s.len() - i,
    {
        let c = s[i];
        assert(s@.skip(i as int)[0] == c);
        if c == ':' {
            let lower = string_of(to_ascii_lower(scheme.as_slice()).as_slice());
            return same(lower.as_str(), "http") || same(lower.as_str(), "https") || same(
                lower.as_str(),
                "mailto",
            ) || same(lower.as_str(), "tel");
        }
        if c == '/' || c == '?' || c == '#' {
            return true;
        }
        proof {
            assert(s@.skip(i as int).drop_first() =~= s@.skip(i + 1));
            assert(s@.take(i + 1).drop_last() =~= s@.take(i as int));
        }
        if !(c == ' ' || is_control(c)) {
            scheme.push(c);
        }
        i = i + 1;
    }
    true
}

// ---------------------------------------------------------------------------
// Tables
// ---------------------------------------------------------------------------

/// The largest number of cells in a row.
pub open spec fn column_count(table: Seq<Seq<Seq<char>>>) -> nat
    decreases table.len(),
{
    if table.len() == 0 {
        0
    } else {
        let before = column_count(table.drop_last());
        if table.last().len() > before {
            table.last().len()
        } else {
            before
        }
    }
}

/// The number of characters of the widest cell of a column.
pub open spec fn column_width(table: Seq<Seq<Seq<char>>>, col: int) -> nat
    decreases table.len(),
{
    if table.len() == 0 {
        0
    } else {
        let before = column_width(table.drop_last(), col);
        let row = table.last();
        if 0 <= col < row.len() && row[col].len() > before {
            row[col].len()
        } else {
            before
        }
    }
}

/// So many spaces.
pub open spec fn spaces(n: nat) -> Seq<char> {
    Seq::new(n, |i: int| ' ')
}

/// The cell of a row, empty where the row is too short.
pub open spec fn cell_of(row: Seq<Seq<char>>, col: int) -> Seq<char> {
    if 0 <= col < row.len() {
        row[col]
    } else {
        Seq::empty()
    }
}

/// The first cells of a row, each padded to its column's width and parted by two spaces.
pub open spec fn padded_row(table: Seq<Seq<Seq<char>>>, row: Seq<Seq<char>>, n: int) -> Seq<char>
    decreases n,
{
    if n <= 0 {
        Seq::empty()
    } else {
        let cell = cell_of(row, n - 1);
        let pad = column_width(table, n - 1) - cell.len();
        padded_row(table, row, n - 1) + cell + spaces(
            if pad > 0 {
                pad as nat
            } else {
                0
            },
        ) + (if n < column_count(table) {
            "  "@
        } else {
            Seq::empty()
        })
    }
}

/// The first rows of a table as lines of escaped text.
pub open spec fn table_lines(table: Seq<Seq<Seq<char>>>, n: int) -> Seq<char>
    decreases n,
{
    if n <= 0 {
        "<pre>"@
    } else {
        table_lines(table, n - 1) + escaped(
            trim_end(padded_row(table, table[n - 1], column_count(table) as int)),
        ) + seq!['\n']
    }
}

/// A table as an aligned block of preformatted text; nothing where it has no rows.
pub open spec fn table_html(table: Seq<Seq<Seq<char>>>) -> Seq<char> {
    if table.len() == 0 {
        Seq::empty()
    } else {
        table_lines(table, table.len() as int) + "</pre>\n"@
    }
}

/// The mathematical form of a table.
pub open spec fn grid(table: Seq<Vec<String>>) -> Seq<Seq<Seq<char>>> {
    table.map_values(|r: Vec<String>| texts(r@))
}

fn columns(rows: &Vec<Vec<String>>) -> (r: usize)
    ensures
        r == column_count(grid(rows@)),
{
    let ghost g = grid(rows@);
    let mut n: usize = 0;
    let mut i: usize = 0;
    while i < rows.len()
        invariant
            i <= rows.len(),
            g == grid(rows@),
            n == column_count(g.take(i as int)),
        decreases rows.len() - i,
    {
        assert(g.take(i + 1).drop_last() =~= g.take(i as int));
        assert(g.take(i + 1).last() == texts(rows@[i as int]@));
        if rows[i].len() > n {
            n = rows[i].len();
        }
        i = i + 1;
    }
    assert(g.take(i as int) =~= g);
    n
}

fn width_of(rows: &Vec<Vec<String>>, col: usize) -> (r: usize)
    ensures
        r == column_width(grid(rows@), col as int),
{
    let ghost g = grid(rows@);
    let mut n: usize = 0;
    let mut i: usize = 0;
    while i < rows.len()
        invariant
            i <= rows.len(),
            g == grid(rows@),
            n == column_width(g.take(i as int), col as int),
        decreases rows.len() - i,
    {
        assert(g.take(i + 1).drop_last() =~= g.take(i as int));
        assert(g.take(i + 1).last() == texts(rows@[i as int]@));
        if col < rows[i].len() {
            let w: usize = chars_of(rows[i][col].as_str()).len();
            if w > n {
                n = w;
            }
        }
        i = i + 1;
    }
    assert(g.take(i as int) =~= g);
    n
}

fn pad(line: &mut String, n: usize)
    ensures
        final(line)@ == old(line)@ + spaces(n as nat),
{
    let ghost start = line@;
    let mut i: usize = 0;
    while i < n
        invariant
            i <= n,
            line@ == start + spaces(i as nat),
        decreases n - i,
    {
        line.push(' ');
        i = i + 1;
        assert(line@ =~= start + spaces(i as nat));
    }
}

fn padded_line(rows: &Vec<Vec<String>>, at: usize, cols: usize) -> (r: String)
    requires
        at < rows@.len(),
        cols == column_count(grid(rows@)),
    ensures
        r@ == padded_row(grid(rows@), grid(rows@)[at as int], cols as int),
{
    let ghost g = grid(rows@);
    let ghost row = g[at as int];
    let mut line = String::new();
    let mut i: usize = 0;
    while i < cols
        invariant
            i <= cols,
            at < rows@.len(),
            g == grid(rows@),
            row == texts(rows@[at as int]@),
            cols == column_count(g),
            line@ == padded_row(g, row, i as int),
        decreases cols - i,
    {
        let w: usize = width_of(rows, i);
        let mut size: usize = 0;
        if i < rows[at].len() {
            line.append(rows[at][i].as_str());
            size = chars_of(rows[at][i].as_str()).len();
            assert(rows@[at as int]@[i as int]@ == row[i as int]);
        } else {
            assert(line@ =~= line@ + cell_of(row, i as int));
        }
        pad(&mut line, if w > size { w - size } else { 0 });
        if i + 1 < cols {
            line.append("  ");
        } else {
            assert(line@ =~= line@ + Seq::<char>::empty());
        }
        i = i + 1;
    }
    line
}

/// Renders a table as an aligned block of preformatted text.
pub fn render_table(rows: &Vec<Vec<String>>) -> (r: String)
    ensures
        r@ == table_html(grid(rows@)),
{
    if rows.len() == 0 {
        return String::new();
    }
    let ghost g = grid(rows@);
    let cols: usize = columns(rows);
    let mut s = String::from_str("<pre>");
    let mut i: usize = 0;
    while i < rows.len()
        invariant
            i <= rows.len(),
            g == grid(rows@),
            cols == column_count(g),
            s@ == table_lines(g, i as int),
        decreases rows.len() - i,
    {
        let line = padded_line(rows, i, cols);
        let v = chars_of(line.as_str());
        let kept = string_of(drop_white(v.as_slice()));
        let text = escape_html(kept.as_str());
        s.append(text.as_str());
        s.push('\n');
        i = i + 1;
        assert(s@ =~= table_lines(g, i as int));
    }
    s.append("</pre>\n");
    s
}

// ---------------------------------------------------------------------------
// The chat client's HTML
// ---------------------------------------------------------------------------

/// What has been written of a page: its HTML, the table being read, and whether the link being
/// read has lost its anchor.
pub struct PageView {
    pub out: Seq<char>,
    pub in_table: bool,
    pub table: Seq<Seq<Seq<char>>>,
    pub row: Seq<Seq<char>>,
    pub cell: Seq<char>,
    pub link_stripped: bool,
}

/// A page with more HTML.
pub open spec fn wrote(p: PageView, s: Seq<char>) -> PageView {
    PageView { out: p.out + s, ..p }
}

/// A page after the start of an element outside tables.
pub open spec fn after_start(p: PageView, span: Span, url: Seq<char>) -> PageView {
    match span {
        Span::Strong | Span::Heading => wrote(p, "<b>"@),
        Span::Emphasis => wrote(p, "<i>"@),
        Span::Strikethrough => wrote(p, "<s>"@),
        Span::BlockQuote => wrote(p, "<blockquote>"@),
        Span::CodeBlock => wrote(p, "<pre>"@),
        Span::Item => wrote(p, "• "@),
        Span::Link => if safe_url(url) {
            wrote(p, "<a href=\""@ + escaped(url) + "\">"@)
        } else {
            PageView { link_stripped: true, ..p }
        },
        Span::Table => PageView { in_table: true, table: Seq::empty(), ..p },
        _ => p,
    }
}

/// A page after the end of an element outside tables.
pub open spec fn after_end(p: PageView, span: Span) -> PageView {
    match span {
        Span::Strong => wrote(p, "</b>"@),
        Span::Emphasis => wrote(p, "</i>"@),
        Span::Strikethrough => wrote(p, "</s>"@),
        Span::Heading => wrote(p, "</b>\n"@),
        Span::BlockQuote => wrote(p, "</blockquote>\n"@),
        Span::CodeBlock => wrote(p, "</pre>\n"@),
        Span::Item => wrote(p, "\n"@),
        Span::Link => if p.link_stripped {
            PageView { link_stripped: false, ..p }
        } else {
            wrote(p, "</a>"@)
        },
        Span::Paragraph => wrote(p, "\n\n"@),
        _ => p,
    }
}

/// A page after one more mark inside a table.
pub open spec fn after_table_mark(p: PageView, m: MarkView) -> PageView {
    match m {
        MarkView::Start(Span::TableHead, _) | MarkView::Start(Span::TableRow, _) => PageView {
            row: Seq::empty(),
            ..p
        },
        MarkView::Start(Span::TableCell, _) => PageView { cell: Seq::empty(), ..p },
        MarkView::End(Span::TableCell) => PageView { row: p.row.push(trimmed(p.cell)), ..p },
        MarkView::End(Span::TableHead) | MarkView::End(Span::TableRow) => PageView {
            table: p.table.push(p.row),
            row: Seq::empty(),
            ..p
        },
        MarkView::End(Span::Table) => PageView {
            out: p.out + table_html(p.table),
            in_table: false,
            table: Seq::empty(),
            ..p
        },
        MarkView::Text(t) | MarkView::Code(t) => PageView { cell: p.cell + t, ..p },
        _ => p,
    }
}

/// A page after one more mark.
pub open spec fn after_mark(p: PageView, m: MarkView) -> PageView {
    if p.in_table {
        after_table_mark(p, m)
    } else {
        match m {
            MarkView::Start(span, url) => after_start(p, span, url),
            MarkView::End(span) => after_end(p, span),
            MarkView::Code(t) => wrote(p, "<code>"@ + escaped(t) + "</code>"@),
            MarkView::Text(t) | MarkView::Html(t) | MarkView::InlineHtml(t) => wrote(p, escaped(t)),
            MarkView::SoftBreak | MarkView::HardBreak => wrote(p, "\n"@),
            MarkView::Rule => wrote(p, "——————\n"@),
            MarkView::Other => p,
        }
    }
}

/// The page after all marks.
pub open spec fn page(marks: Seq<MarkView>) -> PageView
    decreases marks.len(),
{
    if marks.len() == 0 {
        PageView {
            out: Seq::empty(),
            in_table: false,
            table: Seq::empty(),
            row: Seq::empty(),
            cell: Seq::empty(),
            link_stripped: false,
        }
    } else {
        after_mark(page(marks.drop_last()), marks.last())
    }
}

/// The largest number of bytes in one message of the chat client.
pub const MESSAGE_LIMIT: usize = 4096;

/// The messages for a markdown text with the given marks: none where the markdown or its HTML is
/// blank, and else the chunks of the trimmed HTML.
pub open spec fn messages(markdown: Seq<char>, marks: Seq<MarkView>) -> Seq<Seq<char>> {
    let html = trimmed(page(marks).out);
    if blank(markdown) || html.len() == 0 {
        Seq::empty()
    } else {
        chunked(html, MESSAGE_LIMIT as nat)
    }
}

struct Page {
    out: String,
    in_table: bool,
    table: Vec<Vec<String>>,
    row: Vec<String>,
    cell: String,
    link_stripped: bool,
}

impl Page {
    spec fn view(&self) -> PageView {
        PageView {
            out: self.out@,
            in_table: self.in_table,
            table: grid(self.table@),
            row: texts(self.row@),
            cell: self.cell@,
            link_stripped: self.link_stripped,
        }
    }

    fn start(&mut self, span: Span, url: &str)
        ensures
            final(self)@ == after_start(old(self)@, span, url@),
    {
        let ghost p = self@;
        match span {
            Span::Strong | Span::Heading => self.out.append("<b>"),
            Span::Emphasis => self.out.append("<i>"),
            Span::Strikethrough => self.out.append("<s>"),
            Span::BlockQuote => self.out.append("<blockquote>"),
            Span::CodeBlock => self.out.append("<pre>"),
            Span::Item => self.out.append("• "),
            Span::Link => {
                if is_safe_url(url) {
                    let address = escape_html(url);
                    self.out.append("<a href=\"");
                    self.out.append(address.as_str());
                    self.out.append("\">");
                    assert(self.out@ =~= p.out + ("<a href=\""@ + escaped(url@) + "\">"@));
                } else {
                    self.link_stripped = true;
                }
            },
            Span::Table => {
                self.in_table = true;
                self.table = Vec::new();
                assert(grid(self.table@) =~= Seq::empty());
            },
            _ => {},
        }
    }

    fn end(&mut self, span: Span)
        ensures
            final(self)@ == after_end(old(self)@, span),
    {
        match span {
            Span::Strong => self.out.append("</b>"),
            Span::Emphasis => self.out.append("</i>"),
            Span::Strikethrough => self.out.append("</s>"),
            Span::Heading => self.out.append("</b>\n"),
            Span::BlockQuote => self.out.append("</blockquote>\n"),
            Span::CodeBlock => self.out.append("</pre>\n"),
            Span::Item => self.out.append("\n"),
            Span::Link => {
                if self.link_stripped {
                    self.link_stripped = false;
                } else {
                    self.out.append("</a>");
                }
            },
            Span::Paragraph => self.out.append("\n\n"),
            _ => {},
        }
    }

    fn table_mark(&mut self, m: &Mark)
        ensures
            final(self)@ == after_table_mark(old(self)@, m@),
    {
        let ghost p = self@;
        match m {
            Mark::Start(span, _) => match span {
                Span::TableHead | Span::TableRow => {
                    self.row = Vec::new();
                    assert(texts(self.row@) =~= Seq::empty());
                },
                Span::TableCell => {
                    self.cell = String::new();
                },
                _ => {},
            },
            Mark::End(span) => match span {
                Span::TableCell => {
                    let t = str_trim(self.cell.as_str());
                    let ghost before = self.row@;
                    self.row.push(t);
                    assert(texts(self.row@) =~= texts(before).push(t@));
                },
                Span::TableHead | Span::TableRow => {
                    let mut row: Vec<String> = Vec::new();
                    std::mem::swap(&mut row, &mut self.row);
                    let ghost before = self.table@;
                    self.table.push(row);
                    assert(grid(self.table@) =~= grid(before).push(p.row));
                    assert(texts(self.row@) =~= Seq::empty());
                },
                Span::Table => {
                    let html = render_table(&self.table);
                    self.out.append(html.as_str());
                    self.in_table = false;
                    self.table = Vec::new();
                    assert(grid(self.table@) =~= Seq::empty());
                },
                _ => {},
            },
            Mark::Text(t) => self.cell.append(t.as_str()),
            Mark::Code(t) => self.cell.append(t.as_str()),
            _ => {},
        }
    }

    fn mark(&mut self, m: &Mark)
        ensures
            final(self)@ == after_mark(old(self)@, m@),
    {
        let ghost p = self@;
        if self.in_table {
            self.table_mark(m);
            return;
        }
        match m {
            Mark::Start(span, url) => self.start(*span, url.as_str()),
            Mark::End(span) => self.end(*span),
            Mark::Code(t) => {
                let text = escape_html(t.as_str());
                self.out.append("<code>");
                self.out.append(text.as_str());
                self.out.append("</code>");
                assert(self.out@ =~= p.out + ("<code>"@ + escaped(t@) + "</code>"@));
            },
            Mark::Text(t) => self.text(t.as_str()),
            Mark::Html(t) => self.text(t.as_str()),
            Mark::InlineHtml(t) => self.text(t.as_str()),
            Mark::SoftBreak => self.out.append("\n"),
            Mark::HardBreak => self.out.append("\n"),
            Mark::Rule => self.out.append("——————\n"),
            Mark::Other => {},
        }
    }

    fn text(&mut self, t: &str)
        ensures
            final(self)@ == wrote(old(self)@, escaped(t@)),
    {
        let text = escape_html(t);
        self.out.append(text.as_str());
    }
}

/// Walks markdown marks and writes the chat client's HTML.
pub fn render_marks(marks: &Vec<Mark>) -> (r: String)
    ensures
        r@ == page(marks_of(marks@)).out,
{
    let mut p = Page {
        out: String::new(),
        in_table: false,
        table: Vec::new(),
        row: Vec::new(),
        cell: String::new(),
        link_stripped: false,
    };
    let ghost all = marks_of(marks@);
    let mut i: usize = 0;
    proof {
        assert(grid(p.table@) =~= Seq::empty());
        assert(texts(p.row@) =~= Seq::empty());
    }
    while i < marks.len()
        invariant
            i <= marks.len(),
            all == marks_of(marks@),
            p@ == page(all.take(i as int)),
        decreases marks.len() - i,
    {
        assert(all.take(i + 1).drop_last() =~= all.take(i as int));
        p.mark(&marks[i]);
        i = i + 1;
    }
    assert(all.take(i as int) =~= all);
    p.out
}

/// Walks the marks of a markdown text and writes the chat client's HTML.
pub fn render_html(markdown: &str) -> (r: String)
    ensures
        r@ == page(parsed_marks(markdown@)).out,
{
    let marks = parse_marks(markdown);
    render_marks(&marks)
}

/// The messages for a markdown text whose marks are known.
pub fn telegram_messages(markdown: &str, marks: &Vec<Mark>) -> (r: Vec<String>)
    ensures
        texts(r@) == messages(markdown@, marks_of(marks@)),
        forall|i: int| 0 <= i < r@.len() ==> utf8_len(#[trigger] texts(r@)[i]) <= 4096,
        forall|i: int| 0 <= i < r@.len() ==> (#[trigger] texts(r@)[i]).len() <= 4096,
        forall|i: int| 0 <= i < r@.len() ==> !blank(#[trigger] texts(r@)[i]),
{
    proof {
        let all = messages(markdown@, marks_of(marks@));
        assert forall|i: int| 0 <= i < all.len() implies utf8_len(#[trigger] all[i]) <= 4096 && all[i].len()
            <= 4096 && !blank(all[i]) by {
            messages_are_small(markdown@, marks_of(marks@), i);
        }
    }
    if is_blank(markdown) {
        let r: Vec<String> = Vec::new();
        assert(texts(r@) =~= Seq::empty());
        return r;
    }
    let html = render_marks(marks);
    let kept = str_trim(html.as_str());
    if kept.as_str().is_empty() {
        let r: Vec<String> = Vec::new();
        assert(texts(r@) =~= Seq::empty());
        return r;
    }
    split_chunks(kept.as_str(), MESSAGE_LIMIT)
}

/// Renders markdown into the chat client's HTML, split into messages of at most 4096 bytes, none
/// of them blank. Blank input yields no message.
pub fn to_telegram_html(markdown: &str) -> (r: Vec<String>)
    ensures
        texts(r@) == messages(markdown@, parsed_marks(markdown@)),
        forall|i: int| 0 <= i < r@.len() ==> utf8_len(#[trigger] texts(r@)[i]) <= 4096,
        forall|i: int| 0 <= i < r@.len() ==> (#[trigger] texts(r@)[i]).len() <= 4096,
        forall|i: int| 0 <= i < r@.len() ==> !blank(#[trigger] texts(r@)[i]),
        blank(markdown@) ==> r@.len() == 0,
{
    let marks = parse_marks(markdown);
    let r = telegram_messages(markdown, &marks);
    assert(texts(r@).len() == r@.len());
    r
}

// ---------------------------------------------------------------------------
// The browser's HTML
// ---------------------------------------------------------------------------

/// The events chosen so far, and how many links and images being read have lost their tags.
pub struct Picking {
    pub picks: Seq<PickView>,
    pub links: nat,
    pub images: nat,
}

/// What becomes of the mark at position `i`: raw HTML becomes text, links and images with an
/// unsafe address lose their tags, everything else stays.
pub open spec fn after_pick(p: Picking, m: MarkView, i: usize) -> Picking {
    match m {
        MarkView::Html(t) | MarkView::InlineHtml(t) => Picking {
            picks: p.picks.push(PickView::Text(t)),
            ..p
        },
        MarkView::Start(Span::Link, url) if !safe_url(url) => Picking { links: p.links + 1, ..p },
        MarkView::End(Span::Link) if p.links > 0 => Picking {
            links: (p.links - 1) as nat,
            ..p
        },
        MarkView::Start(Span::Image, url) if !safe_url(url) => Picking {
            images: p.images + 1,
            ..p
        },
        MarkView::End(Span::Image) if p.images > 0 => Picking {
            images: (p.images - 1) as nat,
            ..p
        },
        _ => Picking { picks: p.picks.push(PickView::Same(i)), ..p },
    }
}

/// The events chosen from all marks.
pub open spec fn picking(marks: Seq<MarkView>) -> Picking
    decreases marks.len(),
{
    if marks.len() == 0 {
        Picking { picks: Seq::empty(), links: 0, images: 0 }
    } else {
        after_pick(picking(marks.drop_last()), marks.last(), (marks.len() - 1) as usize)
    }
}

/// Raw HTML and the tags of links and images with an unsafe address never reach the writer.
pub proof fn picks_are_safe(marks: Seq<MarkView>, k: int)
    requires
        0 <= k < picking(marks).picks.len(),
        marks.len() <= usize::MAX,
    ensures
        picking(marks).picks[k] matches PickView::Same(i) ==> {
            &&& i < marks.len()
            &&& !(marks[i as int] is Html)
            &&& !(marks[i as int] is InlineHtml)
            &&& (marks[i as int] matches MarkView::Start(Span::Link, url) ==> safe_url(url))
            &&& (marks[i as int] matches MarkView::Start(Span::Image, url) ==> safe_url(url))
        },
    decreases marks.len(),
{
    if marks.len() > 0 {
        let d = marks.drop_last();
        if k < picking(d).picks.len() {
            picks_are_safe(d, k);
        }
    }
}

/// Chooses what the HTML writer gets to see.
pub fn web_picks(marks: &Vec<Mark>) -> (r: Vec<Pick>)
    ensures
        picks_of(r@) == picking(marks_of(marks@)).picks,
{
    let ghost all = marks_of(marks@);
    let mut r: Vec<Pick> = Vec::new();
    let mut links: usize = 0;
    let mut images: usize = 0;
    let mut i: usize = 0;
    assert(picks_of(r@) =~= Seq::empty());
    while i < marks.len()
        invariant
            i <= marks.len(),
            all == marks_of(marks@),
            links <= i,
            images <= i,
            (Picking { picks: picks_of(r@), links: links as nat, images: images as nat })
                == picking(all.take(i as int)),
        decreases marks.len() - i,
    {
        let ghost before = r@;
        proof {
            assert(all.take(i + 1).drop_last() =~= all.take(i as int));
            assert(all.take(i + 1).last() == marks@[i as int]@);
        }
        let choice: Option<Pick> = match &marks[i] {
            Mark::Html(t) => Some(Pick::Text(t.clone())),
            Mark::InlineHtml(t) => Some(Pick::Text(t.clone())),
            Mark::Start(span, url) => {
                if *span == Span::Link && !is_safe_url(url.as_str()) {
                    links = links + 1;
                    None
                } else if *span == Span::Image && !is_safe_url(url.as_str()) {
                    images = images + 1;
                    None
                } else {
                    Some(Pick::Same(i))
                }
            },
            Mark::End(span) => {
                if *span == Span::Link && links > 0 {
                    links = links - 1;
                    None
                } else if *span == Span::Image && images > 0 {
                    images = images - 1;
                    None
                } else {
                    Some(Pick::Same(i))
                }
            },
            _ => Some(Pick::Same(i)),
        };
        match choice {
            Some(p) => {
                r.push(p);
                assert(picks_of(r@) =~= picks_of(before).push(p@));
            },
            None => {},
        }
        i = i + 1;
    }
    assert(all.take(i as int) =~= all);
    r
}

/// The browser's HTML for a markdown text: empty where it is blank, and else what the writer
/// makes of the chosen events, trimmed.
pub open spec fn web_html(markdown: Seq<char>) -> Seq<char> {
    if blank(markdown) {
        Seq::empty()
    } else {
        trimmed(picked_html(markdown, picking(parsed_marks(markdown)).picks))
    }
}

/// Renders markdown into complete HTML for a browser. Raw HTML is shown as text, and links and
/// images with an unsafe address lose their tags but keep their text.
pub fn to_web_html(markdown: &str) -> (r: String)
    ensures
        r@ == web_html(markdown@),
{
    if is_blank(markdown) {
        return String::new();
    }
    let marks = parse_marks(markdown);
    let picks = web_picks(&marks);
    let count: usize = marks.len();
    proof {
        let all = parsed_marks(markdown@);
        assert(all.len() == count);
        assert forall|k: int| 0 <= k < picks@.len() implies (#[trigger] picks@[k]@ matches PickView::Same(
            i,
        ) ==> i < all.len()) by {
            assert(picks_of(picks@)[k] == picks@[k]@);
            picks_are_safe(all, k);
        }
    }
    let html = write_picks(markdown, picks);
    str_trim(html.as_str())
}

} // verus!
