use wukong::memory::recall::{cjk_expand, contains_cjk, fts_match_string, is_trivial, tokenize};

#[test]
fn trivial_queries_detected() {
    assert!(is_trivial("of"));
    assert!(is_trivial("a the"));
    assert!(is_trivial("  "));
    assert!(!is_trivial("sqlite migration"));
    assert!(!is_trivial("連線池設定"));
    assert!(!is_trivial("連線"));
    assert!(is_trivial("可以"));
    assert!(contains_cjk("連線池設定"));
}

#[test]
fn cjk_expand_produces_overlapping_bigrams() {
    assert_eq!(cjk_expand("排程設定"), "排程 程設 設定 ");
    // A single character has no pair; it must survive rather than vanish.
    assert_eq!(cjk_expand("排"), "排 ");
    // Latin is untouched, so English tokenisation and ranking are unchanged.
    assert_eq!(cjk_expand("scheduler settings"), "scheduler settings");
}

#[test]
fn cjk_expand_separates_runs_from_adjacent_latin() {
    // Without the padding these would tokenise as one term: Latin letters and
    // CJK are both alphanumeric, so nothing would split `a排程b`.
    assert_eq!(cjk_expand("a排程b"), "a 排程 b");
    assert_eq!(cjk_expand("User: 排程壞了"), "User: 排程 程壞 壞了 ");
}

#[test]
fn expanded_query_and_document_share_terms() {
    // The property the whole fix rests on: both sides must yield overlapping
    // tokens. Rewriting only one side leaves the other as a single term.
    let doc = tokenize(&cjk_expand("幫我看一下排程設定有沒有問題"));
    for query in ["排程設定", "排程 設定", "排程"] {
        let q = tokenize(&cjk_expand(query));
        assert!(
            q.iter().any(|t| doc.contains(t)),
            "query {query:?} shares no term with the document"
        );
    }
}

#[test]
fn fts_match_quotes_and_or_joins() {
    assert_eq!(
        fts_match_string("SQLite, migration!").unwrap(),
        "\"sqlite\" OR \"migration\""
    );
    assert!(fts_match_string("  ").is_none());
}

#[test]
fn words_of_ascii_text_are_read_again() {
    let words = tokenize("Foo-bar, BAZ42  (x)!");
    assert_eq!(words, vec!["foo", "bar", "baz42", "x"]);
    assert_eq!(tokenize(&words.join(" ")), words);
    assert_eq!(words.concat(), "foobarbaz42x");
    assert!(tokenize(" ,.! ").is_empty());
}

#[test]
fn a_phrase_shares_all_its_words_with_a_document() {
    let doc = tokenize(&cjk_expand("User: 幫我看一下排程設定有沒有問題 ok"));
    let words = tokenize(&cjk_expand("排程設定"));
    assert_eq!(words, vec!["排程", "程設", "設定"]);
    assert!(words.iter().all(|w| doc.contains(w)));
}
