use rsbasic::error::ErrorCode;
use rsbasic::listing::Listing;

#[test]
fn lines_are_kept_in_number_order() {
    let mut l = Listing::new();
    assert!(l.is_empty());
    l.load_str("20 PRINT \"B\"").unwrap();
    l.load_str("10 PRINT \"A\"").unwrap();
    l.load_str("  30 END  ").unwrap();
    assert_eq!(l.len(), 3);
    assert_eq!(l.lines(), vec!["10 PRINT \"A\"", "20 PRINT \"B\"", "30 END"]);
}

#[test]
fn a_stored_line_reads_back_and_replaces_the_old() {
    let mut l = Listing::default();
    l.load_str("10 PRINT 1").unwrap();
    l.load_str("20 PRINT 2").unwrap();
    l.load_str("10 PRINT 3").unwrap();
    assert_eq!(l.line(10), Some("10 PRINT 3".to_string()));
    assert_eq!(l.line(20), Some("20 PRINT 2".to_string()));
    assert_eq!(l.line(15), None);
    assert_eq!(l.len(), 2);
}

#[test]
fn a_bare_number_deletes_its_line() {
    let mut l = Listing::new();
    l.load_str("10 A").unwrap();
    l.load_str("20 B").unwrap();
    l.load_str("10").unwrap();
    assert_eq!(l.line(10), None);
    assert_eq!(l.lines(), vec!["20 B"]);
    l.load_str(" 99  ").unwrap();
    assert_eq!(l.lines(), vec!["20 B"]);
}

#[test]
fn blank_lines_change_nothing() {
    let mut l = Listing::new();
    l.load_str("").unwrap();
    l.load_str(" \t ").unwrap();
    assert!(l.is_empty());
}

#[test]
fn a_line_without_number_is_a_direct_statement() {
    let mut l = Listing::new();
    l.load_str("10 A").unwrap();
    let e = l.load_str("PRINT 1").unwrap_err();
    assert_eq!(e.code, ErrorCode::DirectStatementInFile);
    assert_eq!(e.detail, "");
    assert_eq!(l.lines(), vec!["10 A"]);
}

#[test]
fn a_line_number_too_large_is_a_syntax_error() {
    let mut l = Listing::new();
    let e = l.load_str("99999999999999999999999 PRINT").unwrap_err();
    assert_eq!(e.code, ErrorCode::SyntaxError);
    assert!(l.is_empty());
}
