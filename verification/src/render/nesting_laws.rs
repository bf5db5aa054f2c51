//! What holds of the page when the marks it is rendered from are properly nested.
use crate::render::chunk_laws::{
    balanced, complete, full_tag, nest, nested_html_is_balanced, plain_text, reading_concat, reading_plain, reading_tag,
    tags, well_nested,
};
use crate::render::chunks::{closing, lead_stripped, name_of, tail_stripped, up_to_gap};
use crate::render::markdown::{MarkView, Span};
use crate::render::page_laws::{escaped_is_plain, messages_nest, pages_are_complete};
use crate::render::{
    column_count, escaped, escaped_text_has_no_tags, messages, padded_row, page, safe_url, table_html, table_lines,
};
use crate::text::trim_end;
use vstd::prelude::*;

verus! {

// ---------------------------------------------------------------------------
// Nesting
// ---------------------------------------------------------------------------

/// An element that was started, with its address.
pub struct Opened {
    pub span: Span,
    pub url: Seq<char>,
}

/// An element of this kind is open.
pub open spec fn is_open(open: Seq<Opened>, span: Span) -> bool {
    exists|i: int| 0 <= i < open.len() && (#[trigger] open[i]).span == span
}

/// The elements left open after some marks; `None` where an element ends that was not the last to
/// start, or where a link starts within a link or a table within a table.
pub open spec fn left_open(marks: Seq<MarkView>) -> Option<Seq<Opened>>
    decreases marks.len(),
{
    if marks.len() == 0 {
        Some(Seq::empty())
    } else {
        match left_open(marks.drop_last()) {
            None => None,
            Some(open) => match marks.last() {
                MarkView::Start(span, url) => if (span == Span::Link || span == Span::Table) && is_open(open, span) {
                    None
                } else {
                    Some(open.push(Opened { span, url }))
                },
                MarkView::End(span) => if open.len() > 0 && open.last().span == span {
                    Some(open.drop_last())
                } else {
                    None
                },
                _ => Some(open),
            },
        }
    }
}

/// Every element ends, and before the one around it.
pub open spec fn nested(marks: Seq<MarkView>) -> bool {
    left_open(marks) == Some(Seq::<Opened>::empty())
}

spec fn once(open: Seq<Opened>, span: Span) -> bool {
    forall|i: int, j: int|
        0 <= i < j < open.len() && (#[trigger] open[i]).span == span ==> (#[trigger] open[j]).span != span
}

/// The tag that an element writes where it starts, if it writes one.
spec fn own_tag(e: Opened) -> Option<Seq<char>> {
    match e.span {
        Span::Strong | Span::Heading => Some("<b>"@),
        Span::Emphasis => Some("<i>"@),
        Span::Strikethrough => Some("<s>"@),
        Span::BlockQuote => Some("<blockquote>"@),
        Span::CodeBlock => Some("<pre>"@),
        Span::Link => if safe_url(e.url) {
            Some("<a href=\""@ + escaped(e.url) + "\">"@)
        } else {
            None
        },
        _ => None,
    }
}

/// The tags that the open elements have left open. Within a table none is written.
spec fn tags_open(open: Seq<Opened>) -> Seq<Seq<char>>
    decreases open.len(),
{
    if open.len() == 0 {
        Seq::empty()
    } else {
        let d = tags_open(open.drop_last());
        match own_tag(open.last()) {
            Some(t) => if is_open(open, Span::Table) {
                d
            } else {
                d.push(t)
            },
            None => d,
        }
    }
}

/// A link without its anchor is open outside tables.
spec fn anchor_missing(open: Seq<Opened>) -> bool
    decreases open.len(),
{
    if open.len() == 0 {
        false
    } else {
        let e = open.last();
        anchor_missing(open.drop_last()) || (e.span == Span::Link && !safe_url(e.url) && !is_open(open, Span::Table))
    }
}

proof fn opening(open: Seq<Opened>, e: Opened, span: Span)
    ensures
        is_open(open.push(e), span) == (is_open(open, span) || e.span == span),
        open.push(e).drop_last() == open,
        (is_open(open, span) ==> e.span != span) && once(open, span) ==> once(open.push(e), span),
{
    let t = open.push(e);
    assert(t.drop_last() =~= open);
    if is_open(open, span) {
        let i = choose|i: int| 0 <= i < open.len() && (#[trigger] open[i]).span == span;
        assert(t[i] == open[i]);
    }
    if e.span == span {
        assert(t[open.len() as int] == e);
    }
    if is_open(t, span) && e.span != span {
        let i = choose|i: int| 0 <= i < t.len() && (#[trigger] t[i]).span == span;
        assert(open[i] == t[i]);
    }
    if (is_open(open, span) ==> e.span != span) && once(open, span) {
        assert forall|i: int, j: int| 0 <= i < j < t.len() && (#[trigger] t[i]).span == span implies (
        #[trigger] t[j]).span != span by {
            assert(open[i] == t[i]);
            if j < open.len() {
                assert(open[j] == t[j]);
            }
        }
    }
}

proof fn ending(open: Seq<Opened>, span: Span)
    requires
        open.len() > 0,
    ensures
        is_open(open, span) == (is_open(open.drop_last(), span) || open.last().span == span),
        once(open, span) ==> once(open.drop_last(), span),
        once(open, span) && open.last().span == span ==> !is_open(open.drop_last(), span),
{
    let d = open.drop_last();
    opening(d, open.last(), span);
    assert(d.push(open.last()) =~= open);
    if once(open, span) {
        assert forall|i: int, j: int| 0 <= i < j < d.len() && (#[trigger] d[i]).span == span implies (
        #[trigger] d[j]).span != span by {
            assert(open[i] == d[i] && open[j] == d[j]);
        }
        if open.last().span == span && is_open(d, span) {
            let i = choose|i: int| 0 <= i < d.len() && (#[trigger] d[i]).span == span;
            assert(open[i] == d[i]);
            assert(open[open.len() - 1].span != span);
        }
    }
}

proof fn without_links(open: Seq<Opened>)
    requires
        !is_open(open, Span::Link),
    ensures
        !anchor_missing(open),
    decreases open.len(),
{
    if open.len() > 0 {
        ending(open, Span::Link);
        without_links(open.drop_last());
    }
}

// ---------------------------------------------------------------------------
// Names
// ---------------------------------------------------------------------------

proof fn gap_at(s: Seq<char>, n: Seq<char>)
    requires
        n.len() <= s.len(),
        s.take(n.len() as int) == n,
        forall|i: int| 0 <= i < n.len() ==> n[i] != ' ' && n[i] != '\t',
        s.len() == n.len() || s[n.len() as int] == ' ',
    ensures
        up_to_gap(s) == n,
    decreases n.len(),
{
    if n.len() == 0 {
        assert(up_to_gap(s) =~= n);
    } else {
        let t = s.drop_first();
        let m = n.drop_first();
        assert(s[0] == s.take(n.len() as int)[0]);
        assert(t.take(m.len() as int) =~= m) by {
            assert forall|i: int| 0 <= i < m.len() implies t[i] == m[i] by {
                assert(s.take(n.len() as int)[i + 1] == n[i + 1]);
            }
        }
        gap_at(t, m);
        assert(seq![n[0]] + m =~= n);
    }
}

/// The name of a tag that is a name between its brackets, perhaps with more behind a space.
proof fn named(t: Seq<char>, n: Seq<char>)
    requires
        full_tag(t),
        n.len() > 0,
        t.len() >= n.len() + 2,
        t.subrange(1, 1 + n.len() as int) == n,
        n[0] != '<',
        n[0] != '/',
        forall|i: int| 0 <= i < n.len() ==> n[i] != ' ' && n[i] != '\t',
        t.len() == n.len() + 2 || t[1 + n.len() as int] == ' ',
    ensures
        name_of(t) == n,
        !closing(t),
{
    let a = t.drop_first();
    assert(a[0] == t.subrange(1, 1 + n.len() as int)[0]);
    assert(lead_stripped(t, '<') == a) by {
        reveal_with_fuel(lead_stripped, 2);
    }
    let b = a.drop_last();
    assert(a.last() == t.last());
    assert(b.last() == t[t.len() - 2]);
    assert(tail_stripped(a, '>') == b) by {
        reveal_with_fuel(tail_stripped, 2);
    }
    assert(b.take(n.len() as int) =~= n) by {
        assert forall|i: int| 0 <= i < n.len() implies b[i] == n[i] by {
            assert(t.subrange(1, 1 + n.len() as int)[i] == t[i + 1]);
        }
    }
    gap_at(b, n);
    assert(t.subrange(0, 2)[1] == t[1]);
    assert(t[1] == n[0]);
}

proof fn close_named(t: Seq<char>, n: Seq<char>)
    requires
        n.len() > 0,
        t == seq!['<', '/'] + n + seq!['>'],
        n[0] != '<',
        n[0] != '/',
        forall|i: int| 0 <= i < n.len() ==> n[i] != ' ' && n[i] != '\t' && n[i] != '>',
    ensures
        full_tag(t),
        name_of(t) == n,
        closing(t),
{
    assert forall|i: int| 0 <= i < t.len() - 1 implies t[i] != '>' by {
        if i >= 2 {
            assert(t[i] == n[i - 2]);
        }
    }
    let a = seq!['/'] + n + seq!['>'];
    assert(t.drop_first() =~= a);
    assert(lead_stripped(t, '<') == a) by {
        reveal_with_fuel(lead_stripped, 2);
    }
    let b = n + seq!['>'];
    assert(a.drop_first() =~= b);
    assert(b[0] == n[0]);
    assert(lead_stripped(a, '/') == b) by {
        reveal_with_fuel(lead_stripped, 2);
    }
    assert(b.drop_last() =~= n);
    assert(tail_stripped(b, '>') == n) by {
        reveal_with_fuel(tail_stripped, 2);
    }
    assert(n.take(n.len() as int) =~= n);
    gap_at(n, n);
    assert(t.subrange(0, 2) =~= seq!['<', '/']);
}

proof fn anchor_facts(url: Seq<char>)
    ensures
        ({
            let t = "<a href=\""@ + escaped(url) + "\">"@;
            full_tag(t) && name_of(t) == seq!['a'] && !closing(t)
        }),
{
    reveal_strlit("<a href=\"");
    reveal_strlit("\">");
    let a = "<a href=\""@;
    let b = escaped(url);
    let t = a + b + "\">"@;
    escaped_text_has_no_tags(url);
    assert forall|i: int| 0 <= i < t.len() - 1 implies t[i] != '>' by {
        if a.len() <= i < a.len() + b.len() {
            assert(t[i] == b[i - a.len()]);
            assert(b.contains(b[i - a.len()]));
        }
    }
    assert(t.subrange(1, 2) =~= seq!['a']);
    named(t, seq!['a']);
}

/// The tags of an element: the one it starts with is no closing tag, and the one it ends with has
/// the same name.
proof fn tag_pair(open: Seq<char>, close: Seq<char>, n: Seq<char>)
    requires
        open == seq!['<'] + n + seq!['>'],
        close == seq!['<', '/'] + n + seq!['>'],
        n.len() > 0,
        n[0] != '<',
        n[0] != '/',
        forall|i: int| 0 <= i < n.len() ==> n[i] != ' ' && n[i] != '\t' && n[i] != '>',
    ensures
        full_tag(open),
        !closing(open),
        full_tag(close),
        closing(close),
        name_of(open) == n,
        name_of(close) == n,
{
    assert forall|i: int| 0 <= i < open.len() - 1 implies open[i] != '>' by {
        if i >= 1 {
            assert(open[i] == n[i - 1]);
        }
    }
    assert(open.subrange(1, 1 + n.len() as int) =~= n);
    named(open, n);
    close_named(close, n);
}

/// The pair of tags that an element writes.
proof fn element_tags(e: Opened, close: Seq<char>)
    requires
        own_tag(e) is Some,
        close == (match e.span {
            Span::Strong | Span::Heading => "</b>"@,
            Span::Emphasis => "</i>"@,
            Span::Strikethrough => "</s>"@,
            Span::BlockQuote => "</blockquote>"@,
            Span::CodeBlock => "</pre>"@,
            _ => "</a>"@,
        }),
    ensures
        full_tag(own_tag(e)->0),
        !closing(own_tag(e)->0),
        full_tag(close),
        closing(close),
        name_of(own_tag(e)->0) == name_of(close),
{
    reveal_strlit("<b>");
    reveal_strlit("</b>");
    reveal_strlit("<i>");
    reveal_strlit("</i>");
    reveal_strlit("<s>");
    reveal_strlit("</s>");
    reveal_strlit("<pre>");
    reveal_strlit("</pre>");
    reveal_strlit("<blockquote>");
    reveal_strlit("</blockquote>");
    reveal_strlit("</a>");
    match e.span {
        Span::Strong | Span::Heading => {
            assert("<b>"@ =~= seq!['<'] + seq!['b'] + seq!['>']);
            assert("</b>"@ =~= seq!['<', '/'] + seq!['b'] + seq!['>']);
            tag_pair("<b>"@, "</b>"@, seq!['b']);
        },
        Span::Emphasis => {
            assert("<i>"@ =~= seq!['<'] + seq!['i'] + seq!['>']);
            assert("</i>"@ =~= seq!['<', '/'] + seq!['i'] + seq!['>']);
            tag_pair("<i>"@, "</i>"@, seq!['i']);
        },
        Span::Strikethrough => {
            assert("<s>"@ =~= seq!['<'] + seq!['s'] + seq!['>']);
            assert("</s>"@ =~= seq!['<', '/'] + seq!['s'] + seq!['>']);
            tag_pair("<s>"@, "</s>"@, seq!['s']);
        },
        Span::BlockQuote => {
            let n = seq!['b', 'l', 'o', 'c', 'k', 'q', 'u', 'o', 't', 'e'];
            assert("<blockquote>"@ =~= seq!['<'] + n + seq!['>']);
            assert("</blockquote>"@ =~= seq!['<', '/'] + n + seq!['>']);
            tag_pair("<blockquote>"@, "</blockquote>"@, n);
        },
        Span::CodeBlock => pre_tags(),
        _ => {
            anchor_facts(e.url);
            assert("</a>"@ =~= seq!['<', '/'] + seq!['a'] + seq!['>']);
            close_named("</a>"@, seq!['a']);
        },
    }
}

proof fn pre_tags()
    ensures
        full_tag("<pre>"@),
        !closing("<pre>"@),
        full_tag("</pre>"@),
        closing("</pre>"@),
        name_of("<pre>"@) == name_of("</pre>"@),
{
    reveal_strlit("<pre>");
    reveal_strlit("</pre>");
    let n = seq!['p', 'r', 'e'];
    assert("<pre>"@ =~= seq!['<'] + n + seq!['>']);
    assert("</pre>"@ =~= seq!['<', '/'] + n + seq!['>']);
    tag_pair("<pre>"@, "</pre>"@, n);
}

proof fn code_tags()
    ensures
        full_tag("<code>"@),
        !closing("<code>"@),
        full_tag("</code>"@),
        closing("</code>"@),
        name_of("<code>"@) == name_of("</code>"@),
{
    reveal_strlit("<code>");
    reveal_strlit("</code>");
    let n = seq!['c', 'o', 'd', 'e'];
    assert("<code>"@ =~= seq!['<'] + n + seq!['>']);
    assert("</code>"@ =~= seq!['<', '/'] + n + seq!['>']);
    tag_pair("<code>"@, "</code>"@, n);
}

// ---------------------------------------------------------------------------
// Writing
// ---------------------------------------------------------------------------

proof fn tag_written(out: Seq<char>, open: Seq<Seq<char>>, t: Seq<char>)
    requires
        complete(out),
        nest(tags(out)) == Some(open),
        full_tag(t),
        !closing(t),
    ensures
        complete(out + t),
        nest(tags(out + t)) == Some(open.push(t)),
{
    reading_tag(t);
    reading_concat(out, t);
    assert(tags(out) + seq![t] =~= tags(out).push(t));
    assert(tags(out).push(t).drop_last() =~= tags(out));
}

proof fn plain_written(out: Seq<char>, t: Seq<char>)
    requires
        complete(out),
        plain_text(t),
    ensures
        complete(out + t),
        nest(tags(out + t)) == nest(tags(out)),
{
    reading_plain(t);
    reading_concat(out, t);
    assert(tags(out) + Seq::<Seq<char>>::empty() =~= tags(out));
}

/// What closes the last open tag leaves the others open.
proof fn tag_closed(out: Seq<char>, rest: Seq<Seq<char>>, t: Seq<char>, close: Seq<char>)
    requires
        complete(out),
        nest(tags(out)) == Some(rest.push(t)),
        full_tag(close),
        closing(close),
        name_of(t) == name_of(close),
    ensures
        complete(out + close),
        nest(tags(out + close)) == Some(rest),
{
    reading_tag(close);
    reading_concat(out, close);
    assert(tags(out) + seq![close] =~= tags(out).push(close));
    assert(tags(out).push(close).drop_last() =~= tags(out));
    assert(rest.push(t).drop_last() =~= rest);
}

proof fn table_lines_read(table: Seq<Seq<Seq<char>>>, n: int)
    ensures
        complete(table_lines(table, n)),
        tags(table_lines(table, n)) == seq!["<pre>"@],
    decreases n,
{
    pre_tags();
    if n <= 0 {
        reading_tag("<pre>"@);
    } else {
        table_lines_read(table, n - 1);
        let a = table_lines(table, n - 1);
        let s = trim_end(padded_row(table, table[n - 1], column_count(table) as int));
        escaped_is_plain(s);
        reading_plain(escaped(s));
        reading_concat(a, escaped(s));
        reading_plain(seq!['\n']);
        reading_concat(a + escaped(s), seq!['\n']);
        assert(tags(a) + Seq::<Seq<char>>::empty() =~= tags(a));
    }
}

proof fn table_written(out: Seq<char>, table: Seq<Seq<Seq<char>>>)
    requires
        complete(out),
        nest(tags(out)) is Some,
    ensures
        nest(tags(out + table_html(table))) == nest(tags(out)),
{
    if table.len() == 0 {
        assert(out + table_html(table) =~= out);
    } else {
        let a = table_lines(table, table.len() as int);
        pre_tags();
        table_lines_read(table, table.len() as int);
        reading_concat(out, a);
        assert(tags(out) + seq!["<pre>"@] =~= tags(out).push("<pre>"@));
        assert(tags(out).push("<pre>"@).drop_last() =~= tags(out));
        tag_closed(out + a, nest(tags(out))->0, "<pre>"@, "</pre>"@);
        plain_written(out + a + "</pre>"@, seq!['\n']);
        reveal_strlit("</pre>");
        reveal_strlit("</pre>\n");
        assert(out + a + "</pre>"@ + seq!['\n'] =~= out + table_html(table));
    }
}

proof fn newline_written(out: Seq<char>, close: Seq<char>, line: Seq<char>)
    requires
        complete(out + close),
        line == close + seq!['\n'],
    ensures
        complete(out + line),
        nest(tags(out + line)) == nest(tags(out + close)),
{
    plain_written(out + close, seq!['\n']);
    assert(out + close + seq!['\n'] =~= out + line);
}

// ---------------------------------------------------------------------------
// Pages
// ---------------------------------------------------------------------------

/// What a page keeps in step with the elements that are open.
spec fn in_step(marks: Seq<MarkView>) -> bool {
    left_open(marks) matches Some(open) ==> {
        &&& once(open, Span::Link)
        &&& once(open, Span::Table)
        &&& nest(tags(page(marks).out)) == Some(tags_open(open))
        &&& page(marks).in_table == is_open(open, Span::Table)
        &&& page(marks).link_stripped == anchor_missing(open)
    }
}

proof fn start_in_step(marks: Seq<MarkView>)
    requires
        marks.len() > 0,
        in_step(marks.drop_last()),
        left_open(marks) is Some,
        marks.last() is Start,
    ensures
        in_step(marks),
{
    let before = marks.drop_last();
    let open = left_open(before)->0;
    let p = page(before);
    pages_are_complete(before);
    if let MarkView::Start(span, url) = marks.last() {
        let e = Opened { span, url };
        opening(open, e, Span::Link);
        opening(open, e, Span::Table);
        if !p.in_table {
            match own_tag(e) {
                Some(t) => {
                    element_tags(
                        e,
                        match e.span {
                            Span::Strong | Span::Heading => "</b>"@,
                            Span::Emphasis => "</i>"@,
                            Span::Strikethrough => "</s>"@,
                            Span::BlockQuote => "</blockquote>"@,
                            Span::CodeBlock => "</pre>"@,
                            _ => "</a>"@,
                        },
                    );
                    tag_written(p.out, tags_open(open), t);
                },
                None => {
                    reveal_strlit("• ");
                    if span == Span::Item {
                        plain_written(p.out, "• "@);
                    }
                },
            }
        }
    }
}

proof fn end_in_step(marks: Seq<MarkView>)
    requires
        marks.len() > 0,
        in_step(marks.drop_last()),
        left_open(marks) is Some,
        marks.last() is End,
    ensures
        in_step(marks),
{
    let before = marks.drop_last();
    let open = left_open(before)->0;
    let p = page(before);
    pages_are_complete(before);
    if let MarkView::End(span) = marks.last() {
        let e = open.last();
        let d = open.drop_last();
        ending(open, Span::Link);
        ending(open, Span::Table);
        if span == Span::Link {
            without_links(d);
        }
        if p.in_table {
            if span == Span::Table {
                table_written(p.out, p.table);
            }
        } else {
            let close = match span {
                Span::Strong | Span::Heading => "</b>"@,
                Span::Emphasis => "</i>"@,
                Span::Strikethrough => "</s>"@,
                Span::BlockQuote => "</blockquote>"@,
                Span::CodeBlock => "</pre>"@,
                _ => "</a>"@,
            };
            reveal_strlit("</b>");
            reveal_strlit("</b>\n");
            reveal_strlit("</blockquote>");
            reveal_strlit("</blockquote>\n");
            reveal_strlit("</pre>");
            reveal_strlit("</pre>\n");
            reveal_strlit("\n");
            reveal_strlit("\n\n");
            match own_tag(e) {
                Some(t) => {
                    element_tags(e, close);
                    tag_closed(p.out, tags_open(d), t, close);
                    if span == Span::Heading {
                        assert("</b>\n"@ =~= close + seq!['\n']);
                        newline_written(p.out, close, "</b>\n"@);
                    } else if span == Span::BlockQuote {
                        assert("</blockquote>\n"@ =~= close + seq!['\n']);
                        newline_written(p.out, close, "</blockquote>\n"@);
                    } else if span == Span::CodeBlock {
                        assert("</pre>\n"@ =~= close + seq!['\n']);
                        newline_written(p.out, close, "</pre>\n"@);
                    }
                },
                None => {
                    if span == Span::Item {
                        plain_written(p.out, "\n"@);
                    } else if span == Span::Paragraph {
                        plain_written(p.out, "\n\n"@);
                    }
                },
            }
        }
    }
}

proof fn pages_are_in_step(marks: Seq<MarkView>)
    ensures
        in_step(marks),
    decreases marks.len(),
{
    if marks.len() == 0 {
        reading_plain(Seq::<char>::empty());
    } else if left_open(marks) is Some {
        let before = marks.drop_last();
        let p = page(before);
        pages_are_in_step(before);
        pages_are_complete(before);
        match marks.last() {
            MarkView::Start(_, _) => start_in_step(marks),
            MarkView::End(_) => end_in_step(marks),
            MarkView::Code(t) => {
                if !p.in_table {
                    code_tags();
                    escaped_is_plain(t);
                    tag_written(p.out, nest(tags(p.out))->0, "<code>"@);
                    plain_written(p.out + "<code>"@, escaped(t));
                    tag_closed(
                        p.out + "<code>"@ + escaped(t),
                        nest(tags(p.out))->0,
                        "<code>"@,
                        "</code>"@,
                    );
                    assert(p.out + "<code>"@ + escaped(t) + "</code>"@ =~= p.out + ("<code>"@ + escaped(t)
                        + "</code>"@));
                }
            },
            MarkView::Text(t) | MarkView::Html(t) | MarkView::InlineHtml(t) => {
                escaped_is_plain(t);
                plain_written(p.out, escaped(t));
            },
            MarkView::SoftBreak | MarkView::HardBreak => {
                reveal_strlit("\n");
                plain_written(p.out, "\n"@);
            },
            MarkView::Rule => {
                reveal_strlit("——————\n");
                plain_written(p.out, "——————\n"@);
            },
            MarkView::Other => {},
        }
    }
}

/// The tags of a page nest where its marks do, and so do those of any message that the page is
/// split into: every tag is closed, and every closing tag closes the innermost open one.
pub proof fn nested_marks_nest_tags(markdown: Seq<char>, marks: Seq<MarkView>)
    requires
        nested(marks),
    ensures
        well_nested(page(marks).out),
        forall|i: int|
            0 <= i < messages(markdown, marks).len() ==> well_nested(#[trigger] messages(markdown, marks)[i]),
{
    pages_are_in_step(marks);
    pages_are_complete(marks);
    assert forall|i: int| 0 <= i < messages(markdown, marks).len() implies well_nested(
        #[trigger] messages(markdown, marks)[i],
    ) by {
        messages_nest(markdown, marks, i);
    }
}

/// The page of properly nested marks leaves no tag open, and neither does any message that it is
/// split into.
pub proof fn nested_marks_leave_no_tag_open(markdown: Seq<char>, marks: Seq<MarkView>)
    requires
        nested(marks),
    ensures
        balanced(page(marks).out),
        forall|i: int| 0 <= i < messages(markdown, marks).len() ==> balanced(#[trigger] messages(markdown, marks)[i]),
{
    nested_marks_nest_tags(markdown, marks);
    nested_html_is_balanced(page(marks).out);
    assert forall|i: int| 0 <= i < messages(markdown, marks).len() implies balanced(
        #[trigger] messages(markdown, marks)[i],
    ) by {
        nested_html_is_balanced(messages(markdown, marks)[i]);
    }
}

} // verus!
