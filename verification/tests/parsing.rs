use ternary_entropy::parse::{parse_i8_token, split_tokens};
use ternary_entropy::{parse_ternary_string, SymbolParseError};

fn chars(s: &str) -> Vec<char> {
    s.chars().collect()
}

#[test]
fn parse_simple_sequence() {
    assert_eq!(parse_ternary_string("1 0 -1"), Ok(vec![1, 0, -1]));
}

#[test]
fn parse_signs_zeros_and_mixed_whitespace() {
    assert_eq!(
        parse_ternary_string("1 0 -1\n +1\t-0  001\r\n"),
        Ok(vec![1, 0, -1, 1, 0, 1])
    );
}

#[test]
fn parse_empty_and_blank_text() {
    assert_eq!(parse_ternary_string(""), Ok(vec![]));
    assert_eq!(parse_ternary_string("  \n\t \r\n"), Ok(vec![]));
}

#[test]
fn parse_rejects_integer_outside_alphabet() {
    assert_eq!(parse_ternary_string("1 2 0"), Err(SymbolParseError::InvalidSymbol(2)));
    assert_eq!(parse_ternary_string("-128"), Err(SymbolParseError::InvalidSymbol(-128)));
    assert_eq!(parse_ternary_string("127"), Err(SymbolParseError::InvalidSymbol(127)));
}

#[test]
fn parse_rejects_non_integer_token() {
    assert_eq!(
        parse_ternary_string("1 x 2"),
        Err(SymbolParseError::InvalidInteger(chars("x")))
    );
    assert_eq!(
        parse_ternary_string("0 200 x"),
        Err(SymbolParseError::InvalidInteger(chars("200")))
    );
    assert_eq!(parse_ternary_string("-129"), Err(SymbolParseError::InvalidInteger(chars("-129"))));
    assert_eq!(parse_ternary_string("+"), Err(SymbolParseError::InvalidInteger(chars("+"))));
    assert_eq!(parse_ternary_string("1 -"), Err(SymbolParseError::InvalidInteger(chars("-"))));
    assert_eq!(parse_ternary_string("--1"), Err(SymbolParseError::InvalidInteger(chars("--1"))));
    assert_eq!(parse_ternary_string("1,0"), Err(SymbolParseError::InvalidInteger(chars("1,0"))));
}

#[test]
fn parse_first_error_wins() {
    assert_eq!(parse_ternary_string("0 5 y"), Err(SymbolParseError::InvalidSymbol(5)));
    assert_eq!(
        parse_ternary_string("0 y 5"),
        Err(SymbolParseError::InvalidInteger(chars("y")))
    );
}

#[test]
fn parse_unicode_white_space() {
    assert_eq!(parse_ternary_string("1\u{00A0}0\u{3000}-1\u{2028}1"), Ok(vec![1, 0, -1, 1]));
    assert_eq!(
        parse_ternary_string("1\u{200B}0"),
        Err(SymbolParseError::InvalidInteger(chars("1\u{200B}0")))
    );
}

#[test]
fn token_reading_agrees_with_std() {
    let tokens = [
        "0", "1", "-1", "+1", "-0", "+0", "007", "-007", "127", "128", "-128", "-129", "999",
        "99x", "999x", "x", "", "+", "-", "--1", "+-1", "1-", "١", "0000000000001", "-0000000128",
        "300000000000",
    ];
    for t in tokens {
        assert_eq!(parse_i8_token(&chars(t)), t.parse::<i8>().ok(), "token {:?}", t);
    }
}

#[test]
fn tokens_agree_with_std_split() {
    let texts = [
        "",
        "   ",
        "a b  c",
        " lead and trail ",
        "x\u{0085}y\u{1680}z\u{2000}w\u{200A}v\u{202F}u\u{205F}t",
        "tab\tnew\nline\r\nvt\u{000B}ff\u{000C}",
        "no\u{200B}split\u{FEFF}here",
    ];
    for text in texts {
        let ours: Vec<String> = split_tokens(text).iter().map(|t| t.iter().collect()).collect();
        let std_tokens: Vec<String> = text.split_whitespace().map(|t| t.to_string()).collect();
        assert_eq!(ours, std_tokens, "text {:?}", text);
    }
}
