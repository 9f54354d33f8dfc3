use wordle_helper::constraints::{
    parse_number, parse_pair, update_absent, update_positional_exclusions, update_positional_fixed,
    LineOutcome, PairError,
};
use wordle_helper::text::trim_newline;

#[test]
fn empty_absent_input_keeps_current() {
    let current = update_absent(String::new(), "xyz");
    assert_eq!(update_absent(current, ""), "xyz");
}

#[test]
fn absent_input_replaces_without_repeats() {
    assert_eq!(update_absent("qrs".to_string(), "banana"), "ban");
}

#[test]
fn trim_newline_removes_line_ends() {
    let mut s = "abc\r\n\n".to_string();
    trim_newline(&mut s);
    assert_eq!(s, "abc");
    let mut t = "a\nb".to_string();
    trim_newline(&mut t);
    assert_eq!(t, "a\nb");
    let mut u = "\r\n".to_string();
    trim_newline(&mut u);
    assert_eq!(u, "");
}

#[test]
fn parse_number_follows_decimal_rules() {
    assert_eq!(parse_number("42"), Some(42));
    assert_eq!(parse_number("+7"), Some(7));
    assert_eq!(parse_number("007"), Some(7));
    assert_eq!(parse_number(""), None);
    assert_eq!(parse_number("+"), None);
    assert_eq!(parse_number("-1"), None);
    assert_eq!(parse_number("1a"), None);
    assert_eq!(parse_number("18446744073709551615"), Some(usize::MAX));
    assert_eq!(parse_number("18446744073709551616"), None);
}

#[test]
fn parse_pair_reports_each_error() {
    assert_eq!(parse_pair("2 ab", 5), Ok((2, "ab")));
    assert_eq!(parse_pair("3 ", 5), Ok((3, "")));
    assert_eq!(parse_pair("2", 5), Err(PairError::Shape));
    assert_eq!(parse_pair("2 a b", 5), Err(PairError::Shape));
    assert_eq!(parse_pair("x a", 5), Err(PairError::BadNumber));
    assert_eq!(parse_pair("0 a", 5), Err(PairError::OutOfRange));
    assert_eq!(parse_pair("6 a", 5), Err(PairError::OutOfRange));
}

#[test]
fn exclusion_line_replaces_position() {
    let mut ex = vec![String::new(); 5];
    assert_eq!(update_positional_exclusions(&mut ex, "2 ab"), LineOutcome::Applied);
    assert_eq!(update_positional_exclusions(&mut ex, "2 c"), LineOutcome::Applied);
    assert_eq!(ex[1], "c");
    assert_eq!(update_positional_exclusions(&mut ex, "2 "), LineOutcome::Applied);
    assert_eq!(ex[1], "");
    assert_eq!(update_positional_exclusions(&mut ex, "9 a"), LineOutcome::Rejected(PairError::OutOfRange));
    assert_eq!(update_positional_exclusions(&mut ex, ""), LineOutcome::Finished);
    assert_eq!(ex, vec![String::new(); 5]);
}

#[test]
fn fixed_line_takes_first_letter() {
    let mut fx = vec![None; 5];
    assert_eq!(update_positional_fixed(&mut fx, "3 xy"), LineOutcome::AppliedFirstLetter);
    assert_eq!(fx[2], Some('x'));
    assert_eq!(update_positional_fixed(&mut fx, "3 z"), LineOutcome::Applied);
    assert_eq!(fx[2], Some('z'));
    assert_eq!(update_positional_fixed(&mut fx, "4 "), LineOutcome::Rejected(PairError::EmptyValue));
    assert_eq!(update_positional_fixed(&mut fx, "a b"), LineOutcome::Rejected(PairError::BadNumber));
    assert_eq!(update_positional_fixed(&mut fx, ""), LineOutcome::Finished);
    assert_eq!(fx, vec![None, None, Some('z'), None, None]);
}
