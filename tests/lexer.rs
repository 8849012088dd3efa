use lispread::error::ReadError;
use lispread::lexer::{Token, Tokenizer};

fn sym(s: &str) -> Token {
    Token::Symbol(s.to_string())
}

fn scan_all(input: &str) -> Vec<Result<Token, ReadError>> {
    let mut tokenizer = Tokenizer::new(input);
    let mut out = Vec::new();
    while let Some(t) = tokenizer.next() {
        out.push(t);
    }
    out
}

fn float_value(t: Option<Result<Token, ReadError>>) -> f64 {
    match t {
        Some(Ok(Token::Float(text))) => text.parse::<f64>().unwrap(),
        other => panic!("not a float: {:?}", other),
    }
}

#[test]
fn test_addition() {
    let input = "(+ 1 2.0 (- 3 4) 'foo :keyword \"string\" ; comment\n)";
    let mut tokenizer = Tokenizer::new(input);

    assert_eq!(tokenizer.next(), Some(Ok(Token::OpenParen)));
    assert_eq!(tokenizer.next(), Some(Ok(Token::Symbol("+".to_string()))));
    assert_eq!(tokenizer.next(), Some(Ok(Token::Integer(1))));
    assert_eq!(float_value(tokenizer.next()), 2.0);
    assert_eq!(tokenizer.next(), Some(Ok(Token::OpenParen)));
    assert_eq!(tokenizer.next(), Some(Ok(Token::Symbol("-".to_string()))));
    assert_eq!(tokenizer.next(), Some(Ok(Token::Integer(3))));
    assert_eq!(tokenizer.next(), Some(Ok(Token::Integer(4))));
    assert_eq!(tokenizer.next(), Some(Ok(Token::CloseParen)));
    assert_eq!(tokenizer.next(), Some(Ok(Token::Quote)));
    assert_eq!(tokenizer.next(), Some(Ok(Token::Symbol("foo".to_string()))));
    assert_eq!(
        tokenizer.next(),
        Some(Ok(Token::Keyword("keyword".to_string())))
    );
    assert_eq!(tokenizer.next(), Some(Ok(Token::String("string".to_string()))));
    assert_eq!(tokenizer.next(), Some(Ok(Token::CloseParen)));
    assert_eq!(tokenizer.next(), None);
}

#[test]
fn scans_nested_arithmetic() {
    let tokens = scan_all("(+ 1 2.0 (- 3 4))");
    assert_eq!(
        tokens,
        vec![
            Ok(Token::OpenParen),
            Ok(sym("+")),
            Ok(Token::Integer(1)),
            Ok(Token::Float("2.0".to_string())),
            Ok(Token::OpenParen),
            Ok(sym("-")),
            Ok(Token::Integer(3)),
            Ok(Token::Integer(4)),
            Ok(Token::CloseParen),
            Ok(Token::CloseParen),
        ]
    );
}

#[test]
fn scans_quote_marker() {
    assert_eq!(scan_all("'foo"), vec![Ok(Token::Quote), Ok(sym("foo"))]);
}

#[test]
fn keyword_drops_colon() {
    assert_eq!(
        scan_all(":keyword"),
        vec![Ok(Token::Keyword("keyword".to_string()))]
    );
}

#[test]
fn escaped_quote_in_string() {
    assert_eq!(
        scan_all("\"a\\\"b\""),
        vec![Ok(Token::String("a\"b".to_string()))]
    );
}

#[test]
fn escape_keeps_next_char_verbatim() {
    assert_eq!(
        scan_all("\"x\\ny\""),
        vec![Ok(Token::String("xny".to_string()))]
    );
}

#[test]
fn comment_yields_no_tokens() {
    assert_eq!(scan_all("; comment\n"), vec![]);
    assert_eq!(scan_all("(a ; c\n b)"), scan_all("(a b)"));
    assert_eq!(scan_all("; only a comment"), vec![]);
}

#[test]
fn unterminated_string_is_error() {
    assert_eq!(
        scan_all("\"abc"),
        vec![Err(ReadError::UnterminatedString)]
    );
    assert_eq!(
        scan_all("\"abc\\"),
        vec![Err(ReadError::UnterminatedString)]
    );
}

#[test]
fn integer_overflow_is_invalid_literal() {
    assert_eq!(
        scan_all("9223372036854775807"),
        vec![Ok(Token::Integer(9223372036854775807))]
    );
    assert_eq!(
        scan_all("9223372036854775808"),
        vec![Err(ReadError::InvalidNumericLiteral)]
    );
}

#[test]
fn second_dot_ends_number() {
    assert_eq!(
        scan_all("1.2.3"),
        vec![Ok(Token::Float("1.2".to_string())), Ok(sym(".3"))]
    );
    assert_eq!(float_value(Tokenizer::new("12.").next()), 12.0);
}

#[test]
fn zero_starts_a_symbol() {
    assert_eq!(scan_all("0"), vec![Ok(sym("0"))]);
    assert_eq!(scan_all("10"), vec![Ok(Token::Integer(10))]);
}

#[test]
fn unrecognized_char_stops_scan() {
    let mut tokenizer = Tokenizer::new("a # b");
    assert_eq!(tokenizer.next(), Some(Ok(sym("a"))));
    assert_eq!(tokenizer.next(), None);
    assert_eq!(tokenizer.next(), Some(Ok(sym("b"))));
    assert_eq!(tokenizer.next(), None);
}

#[test]
fn whitespace_of_all_kinds_is_skipped() {
    assert_eq!(
        scan_all(" \t\r\n foo\u{a0}bar "),
        vec![Ok(sym("foo")), Ok(sym("bar"))]
    );
}

#[test]
fn unicode_letters_form_symbols() {
    assert_eq!(scan_all("λx"), vec![Ok(sym("λx"))]);
}

#[test]
fn symbol_characters() {
    let t = Tokenizer::new("");
    for c in ['-', '_', '+', '*', '/', '<', '>', '=', '!', '?', '&', ':', '.', 'a', 'Z', '7'] {
        assert!(t.is_symbol(c));
    }
    for c in ['(', ')', '"', '\'', ';', ' ', '#', ','] {
        assert!(!t.is_symbol(c));
    }
}

#[test]
fn skip_and_comment_move_the_cursor() {
    let mut t = Tokenizer::new("   x");
    t.skip_whitespace();
    assert_eq!(t.next(), Some(Ok(sym("x"))));
    let mut c = Tokenizer::new("rest of line\ny");
    c.read_comment();
    assert_eq!(c.next(), Some(Ok(sym("y"))));
}

#[test]
fn fresh_tokenizers_agree() {
    let input = "(define (f x) '(x :k \"s\" 3.5))";
    assert_eq!(scan_all(input), scan_all(input));
}
