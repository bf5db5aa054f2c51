//! What holds of every rendered page, and so of the messages it is split into.
use crate::render::chunk_laws::{
    chunks_are_balanced, chunks_are_not_blank, chunks_are_small, chunks_nest, chunks_keep_every_visible_character, chunks_show_the_text_as_it_stands, complete, balanced, flat, full_tag, ink,
    ink_concat, plain_text, reading_concat, reading_plain, reading_tag, tags,
    trimmed_tail, trimmed_text_is_not_blank, visible, visible_is_plain, well_nested,
};
use crate::render::markdown::{MarkView, Span};
use crate::render::{
    after_end, after_start, escaped, escaped_text_has_no_tags, messages, page, padded_row,
    column_count, safe_url, table_html, table_lines, PageView, MESSAGE_LIMIT,
};
use crate::text::{blank, has, trim_end, trim_start, trimmed, utf8_len, utf8_len_bounds, white};
use vstd::prelude::*;

verus! {

pub(crate) proof fn escaped_is_plain(s: Seq<char>)
    ensures
        plain_text(escaped(s)),
{
    escaped_text_has_no_tags(s);
    assert forall|i: int| 0 <= i < escaped(s).len() implies escaped(s)[i] != '<' by {
        assert(escaped(s).contains(escaped(s)[i]));
    }
}

proof fn with_tag(a: Seq<char>, t: Seq<char>)
    requires
        complete(a),
        full_tag(t),
    ensures
        complete(a + t),
{
    reading_tag(t);
    reading_concat(a, t);
}

proof fn with_plain(a: Seq<char>, t: Seq<char>)
    requires
        complete(a),
        plain_text(t),
    ensures
        complete(a + t),
{
    reading_plain(t);
    reading_concat(a, t);
}

proof fn with_tag_and_newline(a: Seq<char>, t: Seq<char>)
    requires
        complete(a),
        t.len() > 0,
        full_tag(t.drop_last()),
        t.last() == '\n',
    ensures
        complete(a + t),
{
    with_tag(a, t.drop_last());
    with_plain(a + t.drop_last(), seq!['\n']);
    assert(a + t.drop_last() + seq!['\n'] =~= a + t);
}

proof fn after_start_complete(p: PageView, span: Span, url: Seq<char>)
    requires
        complete(p.out),
    ensures
        complete(after_start(p, span, url).out),
{
    reveal_strlit("<b>");
    reveal_strlit("<i>");
    reveal_strlit("<s>");
    reveal_strlit("<blockquote>");
    reveal_strlit("<pre>");
    reveal_strlit("• ");
    reveal_strlit("<a href=\"");
    reveal_strlit("\">");
    match span {
        Span::Strong | Span::Heading => with_tag(p.out, "<b>"@),
        Span::Emphasis => with_tag(p.out, "<i>"@),
        Span::Strikethrough => with_tag(p.out, "<s>"@),
        Span::BlockQuote => with_tag(p.out, "<blockquote>"@),
        Span::CodeBlock => with_tag(p.out, "<pre>"@),
        Span::Item => with_plain(p.out, "• "@),
        Span::Link => {
            let a = "<a href=\""@;
            let b = escaped(url);
            let t = a + b + "\">"@;
            escaped_text_has_no_tags(url);
            assert(full_tag(t)) by {
                assert forall|i: int| 0 <= i < t.len() - 1 implies t[i] != '>' by {
                    if a.len() <= i < a.len() + b.len() {
                        assert(t[i] == b[i - a.len()]);
                        assert(b.contains(b[i - a.len()]));
                    }
                }
            }
            with_tag(p.out, t);
        },
        _ => {},
    }
}

proof fn after_end_complete(p: PageView, span: Span)
    requires
        complete(p.out),
    ensures
        complete(after_end(p, span).out),
{
    reveal_strlit("</b>");
    reveal_strlit("</i>");
    reveal_strlit("</s>");
    reveal_strlit("</a>");
    reveal_strlit("</b>\n");
    reveal_strlit("</blockquote>\n");
    reveal_strlit("</pre>\n");
    reveal_strlit("\n");
    reveal_strlit("\n\n");
    match span {
        Span::Strong => with_tag(p.out, "</b>"@),
        Span::Emphasis => with_tag(p.out, "</i>"@),
        Span::Strikethrough => with_tag(p.out, "</s>"@),
        Span::Heading => with_tag_and_newline(p.out, "</b>\n"@),
        Span::BlockQuote => with_tag_and_newline(p.out, "</blockquote>\n"@),
        Span::CodeBlock => with_tag_and_newline(p.out, "</pre>\n"@),
        Span::Item => with_plain(p.out, "\n"@),
        Span::Link => with_tag(p.out, "</a>"@),
        Span::Paragraph => with_plain(p.out, "\n\n"@),
        _ => {},
    }
}

proof fn table_lines_complete(table: Seq<Seq<Seq<char>>>, n: int)
    ensures
        complete(table_lines(table, n)),
    decreases n,
{
    if n <= 0 {
        reveal_strlit("<pre>");
        reading_tag("<pre>"@);
    } else {
        table_lines_complete(table, n - 1);
        let t = escaped(trim_end(padded_row(table, table[n - 1], column_count(table) as int)));
        escaped_is_plain(trim_end(padded_row(table, table[n - 1], column_count(table) as int)));
        with_plain(table_lines(table, n - 1), t);
        with_plain(table_lines(table, n - 1) + t, seq!['\n']);
    }
}

proof fn table_complete(table: Seq<Seq<Seq<char>>>)
    ensures
        complete(table_html(table)),
{
    if table.len() > 0 {
        reveal_strlit("</pre>\n");
        table_lines_complete(table, table.len() as int);
        with_tag_and_newline(table_lines(table, table.len() as int), "</pre>\n"@);
    }
}

/// A rendered page holds no stray `<`: whatever the marks, every `<` of its HTML starts a tag
/// that ends.
pub proof fn pages_are_complete(marks: Seq<MarkView>)
    ensures
        complete(page(marks).out),
    decreases marks.len(),
{
    if marks.len() > 0 {
        let p = page(marks.drop_last());
        pages_are_complete(marks.drop_last());
        let m = marks.last();
        if p.in_table {
            table_complete(p.table);
            reading_concat(p.out, table_html(p.table));
        } else {
            reveal_strlit("<code>");
            reveal_strlit("</code>");
            reveal_strlit("\n");
            reveal_strlit("——————\n");
            match m {
                MarkView::Start(span, url) => after_start_complete(p, span, url),
                MarkView::End(span) => after_end_complete(p, span),
                MarkView::Code(t) => {
                    escaped_is_plain(t);
                    with_tag(p.out, "<code>"@);
                    with_plain(p.out + "<code>"@, escaped(t));
                    with_tag(p.out + "<code>"@ + escaped(t), "</code>"@);
                    assert(p.out + "<code>"@ + escaped(t) + "</code>"@ =~= p.out + ("<code>"@ + escaped(t)
                        + "</code>"@));
                },
                MarkView::Text(t) | MarkView::Html(t) | MarkView::InlineHtml(t) => {
                    escaped_is_plain(t);
                    with_plain(p.out, escaped(t));
                },
                MarkView::SoftBreak | MarkView::HardBreak => with_plain(p.out, "\n"@),
                MarkView::Rule => with_plain(p.out, "——————\n"@),
                MarkView::Other => {},
            }
        }
    }
}

proof fn trimmed_head(s: Seq<char>)
    requires
        complete(s),
    ensures
        complete(trim_start(s)),
        tags(trim_start(s)) == tags(s),
        ink(visible(trim_start(s))) == ink(visible(s)),
    decreases s.len(),
{
    if s.len() > 0 && white(s[0]) {
        let a = seq![s[0]];
        let b = s.drop_first();
        assert(s =~= a + b);
        assert(plain_text(a));
        reading_plain(a);
        reading_concat(a, b);
        trimmed_head(b);
        ink_concat(a, visible(b));
        assert(a.drop_last() =~= Seq::<char>::empty());
        assert(ink(a) =~= Seq::<char>::empty()) by {
            reveal_with_fuel(ink, 2);
        }
        assert(ink(a) + ink(visible(b)) =~= ink(visible(b)));
        assert(tags(a) + tags(b) =~= tags(b));
    }
}

proof fn trimmed_page(marks: Seq<MarkView>)
    ensures
        complete(trimmed(page(marks).out)),
        tags(trimmed(page(marks).out)) == tags(page(marks).out),
        ink(visible(trimmed(page(marks).out))) == ink(visible(page(marks).out)),
{
    pages_are_complete(marks);
    trimmed_head(page(marks).out);
    trimmed_tail(trim_start(page(marks).out));
}

/// Splitting a page into messages loses no visible character of it: leaving white space aside,
/// what all messages show is what the page shows.
pub proof fn messages_show_the_whole_page(markdown: Seq<char>, marks: Seq<MarkView>)
    requires
        !blank(markdown),
    ensures
        ink(visible(flat(messages(markdown, marks)))) == ink(visible(page(marks).out)),
{
    let html = trimmed(page(marks).out);
    trimmed_page(marks);
    if html.len() > 0 {
        chunks_keep_every_visible_character(html, MESSAGE_LIMIT as nat);
    }
}

/// Every message shows a part of the page exactly as it stands there, its white space and its line ends
/// included.
pub proof fn messages_show_the_page_as_it_stands(markdown: Seq<char>, marks: Seq<MarkView>, i: int)
    requires
        0 <= i < messages(markdown, marks).len(),
    ensures
        has(visible(trimmed(page(marks).out)), visible(messages(markdown, marks)[i])),
{
    trimmed_page(marks);
    chunks_show_the_text_as_it_stands(trimmed(page(marks).out), MESSAGE_LIMIT as nat, i);
}

/// No message leaves a tag open when the page itself leaves none open.
pub proof fn messages_are_balanced(markdown: Seq<char>, marks: Seq<MarkView>, i: int)
    requires
        balanced(page(marks).out),
        0 <= i < messages(markdown, marks).len(),
    ensures
        balanced(messages(markdown, marks)[i]),
{
    let html = trimmed(page(marks).out);
    trimmed_page(marks);
    chunks_are_balanced(html, MESSAGE_LIMIT as nat, i);
}

/// The tags of each message nest where those of the page do.
pub proof fn messages_nest(markdown: Seq<char>, marks: Seq<MarkView>, i: int)
    requires
        well_nested(page(marks).out),
        0 <= i < messages(markdown, marks).len(),
    ensures
        well_nested(messages(markdown, marks)[i]),
{
    trimmed_page(marks);
    chunks_nest(trimmed(page(marks).out), MESSAGE_LIMIT as nat, i);
}

/// No message is longer than the chat client takes, and none is blank.
pub proof fn messages_are_small(markdown: Seq<char>, marks: Seq<MarkView>, i: int)
    requires
        0 <= i < messages(markdown, marks).len(),
    ensures
        utf8_len(messages(markdown, marks)[i]) <= MESSAGE_LIMIT,
        messages(markdown, marks)[i].len() <= MESSAGE_LIMIT,
        !blank(messages(markdown, marks)[i]),
{
    let html = trimmed(page(marks).out);
    chunks_are_small(html, MESSAGE_LIMIT as nat, i);
    utf8_len_bounds(messages(markdown, marks)[i]);
    trimmed_text_is_not_blank(page(marks).out);
    chunks_are_not_blank(html, MESSAGE_LIMIT as nat, i);
}

// ---------------------------------------------------------------------------
// What is written
// ---------------------------------------------------------------------------

/// The tags without an address that a page may hold.
pub open spec fn plain_tag(t: Seq<char>) -> bool {
    ||| t == "<b>"@
    ||| t == "</b>"@
    ||| t == "<i>"@
    ||| t == "</i>"@
    ||| t == "<s>"@
    ||| t == "</s>"@
    ||| t == "<blockquote>"@
    ||| t == "</blockquote>"@
    ||| t == "<pre>"@
    ||| t == "</pre>"@
    ||| t == "<code>"@
    ||| t == "</code>"@
    ||| t == "</a>"@
}

/// The tag of a link to an address.
pub open spec fn anchor(url: Seq<char>) -> Seq<char> {
    "<a href=\""@ + escaped(url) + "\">"@
}

/// A link to this address starts among the marks.
pub open spec fn links_to(marks: Seq<MarkView>, url: Seq<char>) -> bool {
    exists|i: int| 0 <= i < marks.len() && #[trigger] marks[i] == MarkView::Start(Span::Link, url)
}

/// A tag that a page may hold: one without an address, or the tag of a link among the marks whose
/// address is safe.
pub open spec fn written_tag(t: Seq<char>, marks: Seq<MarkView>) -> bool {
    plain_tag(t) || exists|url: Seq<char>| #[trigger] safe_url(url) && links_to(marks, url) && t == anchor(url)
}

spec fn all_written(ts: Seq<Seq<char>>, marks: Seq<MarkView>) -> bool {
    forall|i: int| 0 <= i < ts.len() ==> written_tag(#[trigger] ts[i], marks)
}

proof fn more_marks(ts: Seq<Seq<char>>, marks: Seq<MarkView>)
    requires
        marks.len() > 0,
        all_written(ts, marks.drop_last()),
    ensures
        all_written(ts, marks),
{
    let d = marks.drop_last();
    assert forall|i: int| 0 <= i < ts.len() implies written_tag(#[trigger] ts[i], marks) by {
        assert(written_tag(ts[i], d));
        if !plain_tag(ts[i]) {
            let url = choose|url: Seq<char>| #[trigger] safe_url(url) && links_to(d, url) && ts[i] == anchor(url);
            let k = choose|k: int| 0 <= k < d.len() && #[trigger] d[k] == MarkView::Start(Span::Link, url);
            assert(marks[k] == d[k]);
        }
    }
}

proof fn tag_is_written(out: Seq<char>, t: Seq<char>, marks: Seq<MarkView>)
    requires
        complete(out),
        all_written(tags(out), marks),
        full_tag(t),
        written_tag(t, marks),
    ensures
        complete(out + t),
        all_written(tags(out + t), marks),
{
    reading_tag(t);
    reading_concat(out, t);
    let all = tags(out + t);
    assert forall|i: int| 0 <= i < all.len() implies written_tag(#[trigger] all[i], marks) by {
        if i < tags(out).len() {
            assert(all[i] == tags(out)[i]);
        }
    }
}

proof fn text_is_written(out: Seq<char>, t: Seq<char>, marks: Seq<MarkView>)
    requires
        complete(out),
        all_written(tags(out), marks),
        plain_text(t),
    ensures
        complete(out + t),
        all_written(tags(out + t), marks),
{
    reading_plain(t);
    reading_concat(out, t);
    assert(tags(out + t) =~= tags(out));
}

proof fn line_is_written(out: Seq<char>, t: Seq<char>, line: Seq<char>, marks: Seq<MarkView>)
    requires
        complete(out),
        all_written(tags(out), marks),
        full_tag(t),
        written_tag(t, marks),
        line == t + seq!['\n'],
    ensures
        complete(out + line),
        all_written(tags(out + line), marks),
{
    tag_is_written(out, t, marks);
    text_is_written(out + t, seq!['\n'], marks);
    assert(out + t + seq!['\n'] =~= out + line);
}

proof fn anchor_is_full(url: Seq<char>)
    ensures
        full_tag(anchor(url)),
        forall|k: int| 1 <= k < anchor(url).len() ==> anchor(url)[k] != '<',
{
    reveal_strlit("<a href=\"");
    reveal_strlit("\">");
    let a = "<a href=\""@;
    let b = escaped(url);
    let t = anchor(url);
    escaped_text_has_no_tags(url);
    assert forall|i: int| a.len() <= i < a.len() + b.len() implies t[i] != '>' && t[i] != '<' by {
        assert(t[i] == b[i - a.len()]);
        assert(b.contains(b[i - a.len()]));
    }
}

proof fn start_is_written(p: PageView, span: Span, url: Seq<char>, marks: Seq<MarkView>)
    requires
        complete(p.out),
        all_written(tags(p.out), marks),
        span == Span::Link ==> links_to(marks, url),
    ensures
        all_written(tags(after_start(p, span, url).out), marks),
{
    reveal_strlit("<b>");
    reveal_strlit("<i>");
    reveal_strlit("<s>");
    reveal_strlit("<blockquote>");
    reveal_strlit("<pre>");
    reveal_strlit("• ");
    match span {
        Span::Strong | Span::Heading => tag_is_written(p.out, "<b>"@, marks),
        Span::Emphasis => tag_is_written(p.out, "<i>"@, marks),
        Span::Strikethrough => tag_is_written(p.out, "<s>"@, marks),
        Span::BlockQuote => tag_is_written(p.out, "<blockquote>"@, marks),
        Span::CodeBlock => tag_is_written(p.out, "<pre>"@, marks),
        Span::Item => text_is_written(p.out, "• "@, marks),
        Span::Link => {
            if safe_url(url) {
                anchor_is_full(url);
                tag_is_written(p.out, anchor(url), marks);
            }
        },
        _ => {},
    }
}

proof fn end_is_written(p: PageView, span: Span, marks: Seq<MarkView>)
    requires
        complete(p.out),
        all_written(tags(p.out), marks),
    ensures
        all_written(tags(after_end(p, span).out), marks),
{
    reveal_strlit("</b>");
    reveal_strlit("</i>");
    reveal_strlit("</s>");
    reveal_strlit("</a>");
    reveal_strlit("</blockquote>");
    reveal_strlit("</pre>");
    reveal_strlit("</b>\n");
    reveal_strlit("</blockquote>\n");
    reveal_strlit("</pre>\n");
    reveal_strlit("\n");
    reveal_strlit("\n\n");
    match span {
        Span::Strong => tag_is_written(p.out, "</b>"@, marks),
        Span::Emphasis => tag_is_written(p.out, "</i>"@, marks),
        Span::Strikethrough => tag_is_written(p.out, "</s>"@, marks),
        Span::Heading => {
            assert("</b>\n"@ =~= "</b>"@ + seq!['\n']);
            line_is_written(p.out, "</b>"@, "</b>\n"@, marks);
        },
        Span::BlockQuote => {
            assert("</blockquote>\n"@ =~= "</blockquote>"@ + seq!['\n']);
            line_is_written(p.out, "</blockquote>"@, "</blockquote>\n"@, marks);
        },
        Span::CodeBlock => {
            assert("</pre>\n"@ =~= "</pre>"@ + seq!['\n']);
            line_is_written(p.out, "</pre>"@, "</pre>\n"@, marks);
        },
        Span::Item => text_is_written(p.out, "\n"@, marks),
        Span::Link => tag_is_written(p.out, "</a>"@, marks),
        Span::Paragraph => text_is_written(p.out, "\n\n"@, marks),
        _ => {},
    }
}

proof fn table_lines_are_written(table: Seq<Seq<Seq<char>>>, n: int, marks: Seq<MarkView>)
    ensures
        complete(table_lines(table, n)),
        all_written(tags(table_lines(table, n)), marks),
    decreases n,
{
    if n <= 0 {
        reveal_strlit("<pre>");
        reading_tag("<pre>"@);
        assert(plain_tag("<pre>"@));
        assert(tags("<pre>"@)[0] == "<pre>"@);
    } else {
        let s = trim_end(padded_row(table, table[n - 1], column_count(table) as int));
        table_lines_are_written(table, n - 1, marks);
        escaped_is_plain(s);
        text_is_written(table_lines(table, n - 1), escaped(s), marks);
        text_is_written(table_lines(table, n - 1) + escaped(s), seq!['\n'], marks);
    }
}

proof fn table_is_written(out: Seq<char>, table: Seq<Seq<Seq<char>>>, marks: Seq<MarkView>)
    requires
        complete(out),
        all_written(tags(out), marks),
    ensures
        all_written(tags(out + table_html(table)), marks),
{
    if table.len() == 0 {
        assert(out + table_html(table) =~= out);
    } else {
        let a = table_lines(table, table.len() as int);
        table_lines_are_written(table, table.len() as int, marks);
        reveal_strlit("</pre>");
        reveal_strlit("</pre>\n");
        assert("</pre>\n"@ =~= "</pre>"@ + seq!['\n']);
        line_is_written(a, "</pre>"@, "</pre>\n"@, marks);
        let t = table_html(table);
        reading_concat(out, t);
        assert forall|i: int| 0 <= i < tags(out + t).len() implies written_tag(#[trigger] tags(out + t)[i], marks) by {
            if i < tags(out).len() {
                assert(tags(out + t)[i] == tags(out)[i]);
            } else {
                assert(tags(out + t)[i] == tags(t)[i - tags(out).len()]);
            }
        }
    }
}

proof fn page_is_written(marks: Seq<MarkView>)
    ensures
        all_written(tags(page(marks).out), marks),
    decreases marks.len(),
{
    if marks.len() > 0 {
        let d = marks.drop_last();
        let p = page(d);
        page_is_written(d);
        pages_are_complete(d);
        more_marks(tags(p.out), marks);
        let m = marks.last();
        if p.in_table {
            table_is_written(p.out, p.table, marks);
        } else {
            reveal_strlit("<code>");
            reveal_strlit("</code>");
            reveal_strlit("\n");
            reveal_strlit("——————\n");
            match m {
                MarkView::Start(span, url) => {
                    assert(marks[marks.len() - 1] == MarkView::Start(span, url));
                    start_is_written(p, span, url, marks);
                },
                MarkView::End(span) => end_is_written(p, span, marks),
                MarkView::Code(t) => {
                    escaped_is_plain(t);
                    tag_is_written(p.out, "<code>"@, marks);
                    text_is_written(p.out + "<code>"@, escaped(t), marks);
                    tag_is_written(p.out + "<code>"@ + escaped(t), "</code>"@, marks);
                    assert(p.out + "<code>"@ + escaped(t) + "</code>"@ =~= p.out + ("<code>"@ + escaped(t)
                        + "</code>"@));
                },
                MarkView::Text(t) | MarkView::Html(t) | MarkView::InlineHtml(t) => {
                    escaped_is_plain(t);
                    text_is_written(p.out, escaped(t), marks);
                },
                MarkView::SoftBreak | MarkView::HardBreak => text_is_written(p.out, "\n"@, marks),
                MarkView::Rule => text_is_written(p.out, "——————\n"@, marks),
                MarkView::Other => {},
            }
        }
    } else {
        reading_plain(Seq::<char>::empty());
    }
}

/// Every `<` of a page starts a tag that the page writes itself, and a link is written only for a
/// safe address that stands among the marks: no markup of the text comes through.
pub proof fn pages_hold_only_written_tags(marks: Seq<MarkView>)
    ensures
        complete(page(marks).out),
        !visible(page(marks).out).contains('<'),
        forall|i: int| 0 <= i < tags(page(marks).out).len() ==> written_tag(#[trigger] tags(page(marks).out)[i], marks),
        forall|i: int, k: int|
            0 <= i < tags(page(marks).out).len() && 1 <= k < tags(page(marks).out)[i].len()
                ==> #[trigger] tags(page(marks).out)[i][k] != '<',
{
    pages_are_complete(marks);
    page_is_written(marks);
    visible_is_plain(page(marks).out);
    let all = tags(page(marks).out);
    assert forall|i: int, k: int| 0 <= i < all.len() && 1 <= k < all[i].len() implies #[trigger] all[i][k] != '<' by {
        assert(written_tag(all[i], marks));
        one_bracket(all[i], marks);
    }
}

proof fn one_bracket(t: Seq<char>, marks: Seq<MarkView>)
    requires
        written_tag(t, marks),
    ensures
        forall|k: int| 1 <= k < t.len() ==> t[k] != '<',
{
    reveal_strlit("<b>");
    reveal_strlit("</b>");
    reveal_strlit("<i>");
    reveal_strlit("</i>");
    reveal_strlit("<s>");
    reveal_strlit("</s>");
    reveal_strlit("<blockquote>");
    reveal_strlit("</blockquote>");
    reveal_strlit("<pre>");
    reveal_strlit("</pre>");
    reveal_strlit("<code>");
    reveal_strlit("</code>");
    reveal_strlit("</a>");
    if !plain_tag(t) {
        let url = choose|url: Seq<char>| #[trigger] safe_url(url) && links_to(marks, url) && t == anchor(url);
        anchor_is_full(url);
    }
}

} // verus!
