use rsbasic::decorate::decorate_list;

const ON: &str = "\u{1b}[4m";
const OFF: &str = "\u{1b}[0m";

#[test]
fn no_columns_leave_the_line_unchanged() {
    assert_eq!(decorate_list("10 PRINT X", &[]), "10 PRINT X");
    assert_eq!(decorate_list("", &[]), "");
    assert_eq!(decorate_list("abc", &[7..9]), "abc");
}

#[test]
fn covered_columns_are_underlined() {
    assert_eq!(decorate_list("abcd", &[1..3]), format!("a{ON}bc{OFF}d"));
    assert_eq!(decorate_list("abcd", &[0..1, 3..4]), format!("{ON}a{OFF}bc{ON}d{OFF}"));
    assert_eq!(decorate_list("abcd", &[1..2, 2..3]), format!("a{ON}bc{OFF}d"));
}

#[test]
fn a_column_just_past_the_end_underlines_a_blank() {
    assert_eq!(decorate_list("ab", &[2..3]), format!("ab{ON} {OFF}"));
    assert_eq!(decorate_list("", &[0..0]), format!("{ON} {OFF}"));
}

#[test]
fn underline_codes_are_those_of_nu_ansi_term() {
    let style = nu_ansi_term::Style::new().underline();
    assert_eq!(decorate_list("x", &[0..1]), format!("{}x{}", style.prefix(), style.suffix()));
}

fn strip(s: &str) -> String {
    s.replace(ON, "").replace(OFF, "")
}

#[test]
fn taking_the_markers_out_gives_the_text_back() {
    let cases: Vec<(&str, Vec<std::ops::Range<usize>>)> = vec![
        ("10 PRINT X", vec![3..8]),
        ("abcd", vec![0..1, 2..4]),
        ("ab", vec![2..3]),
        ("abc", vec![0..3, 1..2]),
    ];
    for (text, cols) in cases {
        let out = decorate_list(text, &cols);
        let blank = if cols.iter().any(|c| c.start == text.chars().count()) { " " } else { "" };
        assert_eq!(strip(&out), format!("{}{}", text, blank));
        assert!(!out.contains(&format!("{ON}{OFF}")));
        assert!(!out.contains(&format!("{OFF}{ON}")));
        if let Some(p) = out.rfind(ON) {
            assert!(out[p..].contains(OFF));
        }
    }
}
