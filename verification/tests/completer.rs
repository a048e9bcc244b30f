use rsbasic::completer::{LineCompleter, RsHelper};
use rsbasic::listing::Listing;

fn program() -> Listing {
    let mut l = Listing::new();
    l.load_str("10 PRINT \"HELLO\"").unwrap();
    l.load_str("20 GOTO 10").unwrap();
    l
}

#[test]
fn typing_a_line_number_recalls_that_line() {
    let c = LineCompleter::new(program());
    assert_eq!(c.candidate("10"), Some("10 PRINT \"HELLO\"".to_string()));
    assert_eq!(c.candidate("  20  "), Some("20 GOTO 10".to_string()));
    assert_eq!(c.candidate("+20"), Some("20 GOTO 10".to_string()));
}

#[test]
fn anything_else_recalls_nothing() {
    let c = LineCompleter::new(program());
    assert_eq!(c.candidate("30"), None);
    assert_eq!(c.candidate("PRINT"), None);
    assert_eq!(c.candidate(""), None);
    assert_eq!(c.candidate("1 0"), None);
}

#[test]
fn the_helper_completes_with_its_completer() {
    let h = RsHelper::with_completer(LineCompleter::new(program()));
    assert_eq!(h.completer.candidate("10"), Some("10 PRINT \"HELLO\"".to_string()));
}
