use wukong::render::chunks::split_chunks;
use wukong::render::{escape_html, is_safe_url, render_html, to_telegram_html, to_web_html};

#[test]
fn escape_html_replaces_specials() {
    assert_eq!(escape_html("a < b & c > d"), "a &lt; b &amp; c &gt; d");
    assert_eq!(escape_html("<script>"), "&lt;script&gt;");
}

#[test]
fn renders_bold_italic_inline_code() {
    let out = to_telegram_html("**bold** and *it* and `co`").join("");
    assert!(out.contains("<b>bold</b>"));
    assert!(out.contains("<i>it</i>"));
    assert!(out.contains("<code>co</code>"));
}

#[test]
fn renders_code_block_as_pre() {
    let out = to_telegram_html("```\nlet x = 1;\n```").join("");
    assert!(out.contains("<pre>"));
    assert!(out.contains("let x = 1;"));
    assert!(out.contains("</pre>"));
}

#[test]
fn renders_heading_as_bold() {
    let out = to_telegram_html("# Title").join("");
    assert!(out.contains("<b>Title</b>"));
}

#[test]
fn renders_link() {
    let out = to_telegram_html("[docs](https://x.io)").join("");
    assert!(out.contains(r#"<a href="https://x.io">docs</a>"#));
}

#[test]
fn renders_list_items_with_bullets() {
    let out = to_telegram_html("- one\n- two").join("");
    assert!(out.contains("• one"));
    assert!(out.contains("• two"));
}

#[test]
fn escapes_text_content() {
    let out = to_telegram_html("a <script> tag").join("");
    assert!(out.contains("&lt;script&gt;"));
    assert!(!out.contains("<script>"));
}

#[test]
fn empty_input_yields_empty_vec() {
    assert!(to_telegram_html("").is_empty());
}

#[test]
fn renders_table_as_pre_block() {
    let md = "| a | b |\n| - | - |\n| 1 | 2 |";
    let out = to_telegram_html(md).join("");
    assert!(out.contains("<pre>"));
    assert!(out.contains('a') && out.contains('b'));
    assert!(out.contains('1') && out.contains('2'));
    assert!(out.contains("</pre>"));
}

#[test]
fn web_renders_bold_and_table() {
    let out = to_web_html("**ans**\n\n| a | b |\n| - | - |\n| 1 | 2 |");
    assert!(out.contains("<strong>ans</strong>"));
    assert!(out.contains("<table>"));
    assert!(out.contains("<td>1</td>"));
}

#[test]
fn web_renders_code_block() {
    let out = to_web_html("```\nlet x = 1;\n```");
    assert!(out.contains("<pre><code"));
    assert!(out.contains("let x = 1;"));
}

#[test]
fn web_escapes_raw_html() {
    let out = to_web_html("a <script>alert(1)</script> tag");
    assert!(out.contains("&lt;script&gt;"));
    assert!(!out.contains("<script>"));
}

#[test]
fn web_empty_input_is_empty_string() {
    assert_eq!(to_web_html(""), "");
}

#[test]
fn long_output_splits_into_multiple_chunks() {
    let md = (0..200)
        .map(|i| format!("line number {i} with some words"))
        .collect::<Vec<_>>()
        .join("\n\n");
    let chunks = to_telegram_html(&md);
    assert!(
        chunks.len() > 1,
        "expected multiple chunks, got {}",
        chunks.len()
    );
    assert!(chunks.iter().all(|c| c.len() <= 4096));
}

#[test]
fn long_cjk_paragraph_splits_without_panicking() {
    // 3000 CJK chars (3 bytes each = 9000 bytes) in one paragraph, no newline.
    let md = "測".repeat(3000);
    let chunks = to_telegram_html(&md);
    assert!(chunks.len() > 1, "expected a split, got {}", chunks.len());
    for c in &chunks {
        assert!(c.len() <= 4096, "chunk over limit: {} bytes", c.len());
    }
    // No character is lost or corrupted across the split.
    assert_eq!(chunks.join("").matches('測').count(), 3000);
}

#[test]
fn split_chunks_respects_char_boundaries_with_small_max() {
    let s = "日本語テキスト".repeat(50); // multi-byte, no newline
    let chunks = split_chunks(&s, 20);
    for c in &chunks {
        assert!(c.len() <= 20, "chunk over limit: {} bytes", c.len());
        // String is UTF-8 by construction; the real assertion is "no panic".
    }
    assert_eq!(chunks.join("").matches('語').count(), 50);
}

#[test]
fn long_pre_block_stays_balanced_across_chunks() {
    let code = (0..600)
        .map(|i| format!("line {i} of some code"))
        .collect::<Vec<_>>()
        .join("\n");
    let md = format!("```\n{code}\n```");
    let chunks = to_telegram_html(&md);
    assert!(chunks.len() > 1, "expected a split, got {}", chunks.len());
    for c in &chunks {
        assert!(c.len() <= 4096, "chunk over limit: {} bytes", c.len());
        assert_eq!(
            c.matches("<pre>").count(),
            c.matches("</pre>").count(),
            "unbalanced <pre> in chunk: {c}"
        );
    }
}

#[test]
fn long_blockquote_stays_balanced_across_chunks() {
    let body = "> ".to_string() + &"引用文字很長很長。".repeat(600);
    let chunks = to_telegram_html(&body);
    assert!(chunks.len() > 1, "expected a split, got {}", chunks.len());
    for c in &chunks {
        assert_eq!(
            c.matches("<blockquote>").count(),
            c.matches("</blockquote>").count(),
            "unbalanced <blockquote> in chunk"
        );
    }
}

#[test]
fn is_safe_url_accepts_and_rejects() {
    for ok in [
        "https://x.io",
        "http://x.io",
        "mailto:a@b.com",
        "tel:+123",
        "/rel/path",
        "#frag",
        "?q=1",
        "path/only",
        "",
    ] {
        assert!(is_safe_url(ok), "should be safe: {ok:?}");
    }
    for bad in [
        "javascript:alert(1)",
        "JavaScript:alert(1)",
        "data:text/html,x",
        "vbscript:x",
        "  javascript:x",
        "java\tscript:alert(1)",
    ] {
        assert!(!is_safe_url(bad), "should be unsafe: {bad:?}");
    }
}

#[test]
fn web_strips_javascript_link_keeps_text() {
    let out = to_web_html("[click me](javascript:alert(document.cookie))");
    assert!(!out.contains("javascript:"), "js url leaked: {out}");
    assert!(!out.contains("<a "), "anchor emitted for unsafe url: {out}");
    assert!(out.contains("click me"), "inner text dropped: {out}");
}

#[test]
fn web_strips_data_url() {
    let out = to_web_html("[x](data:text/html,hi)");
    assert!(!out.to_ascii_lowercase().contains("data:text/html"));
    assert!(!out.contains("<a "));
}

#[test]
fn web_keeps_safe_links() {
    assert!(to_web_html("[x](https://example.com)").contains(r#"href="https://example.com""#));
    assert!(to_web_html("[x](mailto:a@b.com)").contains("mailto:a@b.com"));
    assert!(to_web_html("[x](/local/path)").contains(r#"href="/local/path""#));
}

#[test]
fn telegram_strips_javascript_link_keeps_text() {
    let out = to_telegram_html("[click me](javascript:alert(1))").join("");
    assert!(!out.contains("javascript:"), "js url leaked: {out}");
    assert!(
        !out.contains("<a href"),
        "anchor emitted for unsafe url: {out}"
    );
    assert!(out.contains("click me"), "inner text dropped: {out}");
}

/// The names of the tags of a text, a slash before those of closing tags.
fn tag_names(html: &str) -> Vec<String> {
    html.split('<')
        .skip(1)
        .map(|t| t.split(|c| c == '>' || c == ' ').next().unwrap().to_string())
        .collect()
}

fn nests(html: &str) -> bool {
    let mut open: Vec<String> = Vec::new();
    for name in tag_names(html) {
        match name.strip_prefix('/') {
            Some(n) => {
                if open.pop().as_deref() != Some(n) {
                    return false;
                }
            }
            None => open.push(name),
        }
    }
    open.is_empty()
}

#[test]
fn a_link_with_a_long_address_keeps_its_text_only() {
    let md = format!("see [x](https://e.io/{}) and *y*", "a".repeat(5000));
    let chunks = to_telegram_html(&md);
    assert_eq!(chunks, vec!["see x and <i>y</i>"]);
    // An address that leaves room stays.
    let md = format!("see [x](https://e.io/{}) and {}", "a".repeat(3000), "y ".repeat(900));
    let chunks = to_telegram_html(&md);
    assert!(chunks.iter().all(|c| c.len() <= 4096 && nests(c)));
    assert!(chunks.join("").contains("\">x</a>"));
}

#[test]
fn deep_quotes_stay_within_the_limit() {
    let md = format!("{}deep", "> ".repeat(400));
    let chunks = to_telegram_html(&md);
    assert!(chunks.iter().all(|c| c.len() <= 4096 && nests(c)));
    assert!(chunks.join("").contains("deep"));
    assert!(chunks[0].contains("<blockquote>"));
}

#[test]
fn chunks_of_every_size_are_small_and_nest() {
    let html = "<b>one <i>two\nthree</i> four</b><a href=\"https://x.io/a\">five 六七</a> 🙂 eight";
    let letters = |s: &str| -> String {
        s.split('<')
            .enumerate()
            .map(|(i, t)| if i == 0 { t } else { t.split_once('>').unwrap().1 })
            .collect::<String>()
            .split_whitespace()
            .collect()
    };
    for max in 4..120 {
        let chunks = split_chunks(html, max);
        assert!(chunks.iter().all(|c| c.len() <= max && nests(c)), "{max}: {chunks:?}");
        assert_eq!(letters(&chunks.join("")), letters(html), "{max}");
    }
}

#[test]
fn closing_tags_that_close_nothing_do_not_break_the_limit() {
    let html = format!("<b>{}</b></{}>", "x".repeat(30), "y".repeat(40));
    let chunks = split_chunks(&html, 20);
    assert!(chunks.iter().all(|c| c.len() <= 20));
    assert_eq!(chunks.join("").matches('x').count(), 30);
    // A closing tag with more in it than its name is cut down to its name.
    let html = format!("<b>{}</b {}>z", "x".repeat(30), "y".repeat(40));
    let chunks = split_chunks(&html, 20);
    assert!(chunks.iter().all(|c| c.len() <= 20 && nests(c)));
    assert!(chunks.join("").ends_with("z"));
}

#[test]
fn a_tag_that_just_leaves_room_for_its_text_stays() {
    assert_eq!(split_chunks("<b>abcdef</b>", 10), vec!["<b>abc</b>", "<b>def</b>"]);
    assert_eq!(split_chunks("<b>abc</b>", 8), vec!["<b>a</b>", "<b>b</b>", "<b>c</b>"]);
    // A wide character needs more room than a narrow one.
    assert_eq!(split_chunks("<b>aé</b>", 8), vec!["aé"]);
    assert_eq!(split_chunks("<b>aé</b>", 9), vec!["<b>a</b>", "<b>é</b>"]);
    // Where one tag has to go, another one that leaves room for its own text stays.
    assert_eq!(split_chunks("<b>六七</b><i>xyz</i>", 8), vec!["六七", "<i>x</i>", "<i>y</i>", "<i>z</i>"]);
    // A tag without text needs no room.
    assert_eq!(split_chunks("<b></b>abcdefgh", 7), vec!["<b></b>", "abcdefg", "h"]);
}

#[test]
fn a_link_may_fill_a_message_but_for_one_letter() {
    let address = format!("https://e.io/{}", "a".repeat(4067));
    let chunks = to_telegram_html(&format!("[xyz]({address})"));
    let expected: Vec<String> =
        ["x", "y", "z"].iter().map(|c| format!("<a href=\"{address}\">{c}</a>")).collect();
    assert_eq!(chunks, expected);
    assert_eq!(chunks[0].len(), 4096);
    // One byte more, and the link goes.
    assert_eq!(to_telegram_html(&format!("[xyz]({address}a)")), vec!["xyz"]);
}

#[test]
fn pages_hold_only_the_tags_they_write() {
    let html = render_html("<b>a</b> <script>x</script> `<i>` [y](javascript:z) [w](https://e.io?a<b)");
    assert_eq!(tag_names(&html), ["code", "/code", "a", "/a"]);
    assert!(html.contains("&lt;script&gt;") && html.contains("href=\"https://e.io?a&lt;b\""));
}
