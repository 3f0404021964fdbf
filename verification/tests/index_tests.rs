use neo::index::{parse_words, words_of_texts, Html, IndexSummary, Selector};

#[test]
fn parse_words_returns_alphanumeric_words_paragraph_tag() {
    let fragment = Html::parse_fragment(r#"<p>rust creAte; hello World!</p>"#);
    let selector = Selector::parse("p").unwrap();
    assert_eq!(vec!["rust", "create", "hello", "world"], parse_words(&fragment, &selector));

    let fragment = Html::parse_fragment(r#"<h1>rust creAte; hello World!</p>"#);
    assert_eq!(Vec::<String>::new(), parse_words(&fragment, &selector));
    let fragment = Html::parse_fragment(r#"<title>rust creAte; hello World!</title>"#);
    assert_eq!(Vec::<String>::new(), parse_words(&fragment, &selector));

    let selector = Selector::parse("title").unwrap();
    assert_eq!(vec!["rust", "create", "hello", "world"], parse_words(&fragment, &selector));
}

#[test]
fn words_keep_empty_pieces_and_unicode_letters() {
    let texts = vec!["a  B-c".to_string(), "Ünï 42!".to_string(), "".to_string()];
    assert_eq!(words_of_texts(&texts), vec!["a", "", "bc", "Ünï", "42", ""]);
    assert_eq!(words_of_texts(&Vec::new()), Vec::<String>::new());
}

#[test]
fn index_summary_report() {
    let summary = IndexSummary::new(1024, 2048, 0);
    assert_eq!(
        summary.describe(),
        "index file size: 3.0KB\n\tdictionary: 1.0KB\n\tposting list: 2.0KB\n\tdocstore: 0B"
    );
}

#[test]
fn parse_words_reads_documents_and_refuses_bad_selectors() {
    let document = Html::parse_document("<html><head><title>A b</title></head><body><p>One</p><p>two 3</p></body></html>");
    let selector = Selector::parse("p").unwrap();
    assert_eq!(parse_words(&document, &selector), vec!["one", "two", "3"]);
    let selector = Selector::parse("title, p").unwrap();
    assert_eq!(parse_words(&document, &selector), vec!["a", "b", "one", "two", "3"]);
    let err = Selector::parse("p[").err().unwrap();
    assert_eq!(err.message(), "invalid selector: p[");
}

#[test]
fn words_hold_only_lower_case_letters_digits_and_other_alphanumerics() {
    let mut all_ascii = String::new();
    for b in 0u8..128 {
        all_ascii.push(b as char);
    }
    let texts = vec![all_ascii, "ÀÉ ß 中文 ½".to_string()];
    let words = words_of_texts(&texts);
    for w in &words {
        for c in w.chars() {
            if c.is_ascii() {
                assert!(c.is_ascii_lowercase() || c.is_ascii_digit(), "{c:?} in {w:?}");
            } else {
                assert!(c.is_alphanumeric(), "{c:?} in {w:?}");
            }
        }
    }
    assert!(words.contains(&"0123456789abcdefghijklmnopqrstuvwxyzabcdefghijklmnopqrstuvwxyz".to_string()));
    assert_eq!(words[words.len() - 4..].to_vec(), vec!["ÀÉ", "ß", "中文", "½"]);
}
