use astrapdf::error::AstraPdfError;
use astrapdf::pagespec::parse_page_spec;
use astrapdf::scan::{find_keyword_matches, find_regex_matches};

#[test]
fn test_keyword_context_window() {
    let text = "alpha\nbeta\nalpha\ngamma";
    let matches = find_keyword_matches(text, "alpha", 1, 1, false);

    assert_eq!(matches.len(), 2);

    assert_eq!(matches[0].line_number, 1);
    assert_eq!(matches[0].text, "alpha");
    assert_eq!(matches[0].context_before, "");
    assert_eq!(matches[0].context_after, "beta");

    assert_eq!(matches[1].line_number, 3);
    assert_eq!(matches[1].text, "alpha");
    assert_eq!(matches[1].context_before, "beta");
    assert_eq!(matches[1].context_after, "gamma");
}

#[test]
fn test_context_window_bounds() {
    let text = "l1\nl2\nl3\nl4\nl5";
    let matches = find_keyword_matches(text, "l3", 1, 2, false);
    assert_eq!(matches.len(), 1);
    assert_eq!(matches[0].context_before, "l1\nl2");
    assert_eq!(matches[0].context_after, "l4\nl5");

    // A window larger than the text is cut at the boundaries.
    let wide = find_keyword_matches(text, "l3", 1, 10, false);
    assert_eq!(wide[0].context_before, "l1\nl2");
    assert_eq!(wide[0].context_after, "l4\nl5");

    // A zero window holds no context at all.
    let none = find_keyword_matches(text, "l3", 1, 0, false);
    assert_eq!(none[0].context_before, "");
    assert_eq!(none[0].context_after, "");
}

#[test]
fn test_keyword_ignore_case_permutations() {
    let text = "The QUICK brown fox";
    assert_eq!(find_keyword_matches(text, "quick", 1, 0, true).len(), 1);
    assert_eq!(find_keyword_matches(text, "QuIcK", 1, 0, true).len(), 1);
    assert_eq!(find_keyword_matches(text, "QUICK", 1, 0, true).len(), 1);
    assert_eq!(find_keyword_matches(text, "quick", 1, 0, false).len(), 0);
}

#[test]
fn test_invalid_regex_fails_before_scanning() {
    let r = find_regex_matches("some\ntext", "[invalid regex(", 1, 2);
    assert!(r.is_err(), "an invalid pattern must fail the whole scan");
    match r {
        Err(AstraPdfError::RegexError(_)) => {}
        _ => panic!("expected a pattern error"),
    }
}

#[test]
fn test_regex_matches_lines() {
    let text = "order 12\nno digits here\nitem 7";
    let matches = find_regex_matches(text, r"\d+", 9, 0).expect("pattern compiles");
    assert_eq!(matches.len(), 2);
    assert_eq!(matches[0].line_number, 1);
    assert_eq!(matches[1].line_number, 3);
    assert_eq!(matches[0].page, 9);
}

#[test]
fn test_page_spec_order_kept() {
    let pages = parse_page_spec("1-3,5").expect("valid spec");
    assert_eq!(pages, vec![1, 2, 3, 5]);
}

#[test]
fn test_page_spec_duplicates_kept() {
    let pages = parse_page_spec("2,1-3").expect("valid spec");
    assert_eq!(pages, vec![2, 1, 2, 3]);
}

#[test]
fn test_page_spec_trims_tokens() {
    let pages = parse_page_spec(" 2 , 4 ").expect("valid spec");
    assert_eq!(pages, vec![2, 4]);
    let plus = parse_page_spec("+7").expect("a leading plus parses");
    assert_eq!(plus, vec![7]);
    let range = parse_page_spec("1 - 3").expect("range bounds are trimmed");
    assert_eq!(range, vec![1, 2, 3]);
}

#[test]
fn test_page_spec_rejects_malformed() {
    assert!(parse_page_spec("abc").is_err());
    assert!(parse_page_spec("").is_err());
    assert!(parse_page_spec("1,").is_err());
    assert!(parse_page_spec("1-2-3").is_err());
    assert!(parse_page_spec("4294967296").is_err());
    match parse_page_spec("x") {
        Err(AstraPdfError::PageSpecParseError(_)) => {}
        _ => panic!("expected a page-spec parse error"),
    }
}

#[test]
fn test_page_spec_rejects_reversed_range() {
    assert!(parse_page_spec("5-1").is_err(), "a reversed range is rejected outright");
}

#[test]
fn test_error_messages() {
    let e = AstraPdfError::RegexError("boom".to_string());
    assert_eq!(e.message(), "Pattern regex invalide: boom");
    let e = AstraPdfError::PageSpecParseError("5-1".to_string());
    assert_eq!(e.message(), "Erreur de parsing des pages: 5-1");
}
