use minigrep::search::search;

#[test]
fn returns_matching_lines_in_order() {
    let doc = "hello\nworld\nhello world\n";
    assert_eq!(search("hello", doc), vec!["hello", "hello world"]);
}

#[test]
fn no_match_gives_empty_result() {
    let doc = "abc\ndef\n";
    assert!(search("xyz", doc).is_empty());
}

#[test]
fn empty_query_returns_every_line() {
    let doc = "one\n\ntwo\nthree";
    assert_eq!(search("", doc), vec!["one", "", "two", "three"]);
}

#[test]
fn empty_document_gives_nothing() {
    assert!(search("a", "").is_empty());
    assert!(search("", "").is_empty());
}

#[test]
fn trailing_newline_opens_no_empty_line() {
    assert_eq!(search("", "a\n"), vec!["a"]);
    assert_eq!(search("", "\n"), vec![""]);
    assert_eq!(search("", "a\n\n"), vec!["a", ""]);
}

#[test]
fn last_line_without_newline_is_searched() {
    assert_eq!(search("end", "start\nthe end"), vec!["the end"]);
}

#[test]
fn matching_is_case_sensitive() {
    let doc = "Rust:\nsafe, fast, productive.\nTrust me.\nrust";
    assert_eq!(search("rust", doc), vec!["Trust me.", "rust"]);
    assert_eq!(search("Rust", doc), vec!["Rust:"]);
    assert_eq!(search("ust", doc), vec!["Rust:", "Trust me.", "rust"]);
}

#[test]
fn duplicate_lines_are_kept() {
    assert_eq!(search("x", "x\ny\nx\n"), vec!["x", "x"]);
}

#[test]
fn query_longer_than_line_does_not_match() {
    assert!(search("abcdef", "abc\nab\n").is_empty());
}

#[test]
fn query_spanning_a_newline_does_not_match() {
    assert!(search("a\nb", "a\nb\n").is_empty());
}

#[test]
fn multibyte_text_is_matched_by_characters() {
    let doc = "grüße\nnaïve café\nplain";
    assert_eq!(search("é", doc), vec!["naïve café"]);
    assert_eq!(search("üß", doc), vec!["grüße"]);
}

#[test]
fn results_borrow_from_the_document() {
    let doc = String::from("alpha\nbeta\n");
    let found = search("beta", &doc);
    assert_eq!(found.len(), 1);
    let start = doc.as_ptr() as usize;
    let at = found[0].as_ptr() as usize;
    assert_eq!(at - start, 6);
}

#[test]
fn every_result_contains_query_and_every_other_line_does_not() {
    let doc = "cat\ndog\ncatalog\nbird\nscat";
    let q = "cat";
    let found = search(q, doc);
    for l in &found {
        assert!(l.contains(q));
    }
    for l in doc.split('\n') {
        assert_eq!(l.contains(q), found.contains(&l));
    }
    assert_eq!(found, vec!["cat", "catalog", "scat"]);
}
