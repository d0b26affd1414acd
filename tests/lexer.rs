use go_forth::id::Id;
use go_forth::lexer::{fold_token, parse_datum, split_tokens};

fn chars(s: &str) -> Vec<char> {
    s.chars().collect()
}

#[test]
fn split_tokens_drops_whitespace() {
    let toks = split_tokens(" ab  c\u{3000}d\t");
    assert_eq!(vec![chars("ab"), chars("c"), chars("d")], toks);
    assert!(split_tokens("   ").is_empty());
}

#[test]
fn parse_datum_reads_decimal_numerals() {
    assert_eq!(Some(0), parse_datum(&chars("0")));
    assert_eq!(Some(-9), parse_datum(&chars("-9")));
    assert_eq!(Some(12), parse_datum(&chars("+12")));
    assert_eq!(Some(i32::MAX), parse_datum(&chars("2147483647")));
    assert_eq!(Some(i32::MIN), parse_datum(&chars("-2147483648")));
    assert_eq!(None, parse_datum(&chars("-2147483649")));
    assert_eq!(None, parse_datum(&chars("99999999999999999999")));
    assert_eq!(None, parse_datum(&chars("")));
    assert_eq!(None, parse_datum(&chars("-")));
    assert_eq!(None, parse_datum(&chars("1a")));
    assert_eq!(None, parse_datum(&chars("--1")));
}

#[test]
fn fold_token_lowers_ascii_capitals_only() {
    assert_eq!(chars("dup!é"), fold_token(&chars("DuP!é")));
}

#[test]
fn identifiers_keep_sixteen_characters() {
    assert!(Id::from("abcdefghijklmnopXYZ") == Id::from("abcdefghijklmnop"));
    assert!(Id::from("abc") != Id::from("abd"));
    assert!(Id::from_chars(&chars("dup")) == Id::from("dup"));
}
