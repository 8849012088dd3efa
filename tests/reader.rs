use lispread::ast::{Expr, Parser};
use lispread::error::ReadError;
use lispread::lexer::{Token, Tokenizer};

fn tokens_of(input: &str) -> Vec<Token> {
    let mut tokenizer = Tokenizer::new(input);
    let mut out = Vec::new();
    while let Some(t) = tokenizer.next() {
        out.push(t.unwrap());
    }
    out
}

fn read(input: &str) -> Result<Expr, ReadError> {
    let tokens = tokens_of(input);
    Parser::new(&tokens).parse()
}

fn sym(s: &str) -> Expr {
    Expr::Symbol(s.to_string())
}

fn count_lists(e: &Expr) -> usize {
    match e {
        Expr::List(v) => 1 + v.iter().map(count_lists).sum::<usize>(),
        Expr::Quote(b) => count_lists(b),
        _ => 0,
    }
}

#[test]
fn test_parse_integer() {
    let tokens = vec![Token::Integer(1)];
    let mut parser = Parser::new(&tokens);
    let expr = parser.parse().unwrap();
    assert_eq!(expr, Expr::Integer(1));
}

#[test]
fn test_parse() {
    let tokens = vec![
        Token::OpenParen,
        Token::Symbol("+".to_string()),
        Token::Integer(1),
        Token::Float("2.0".to_string()),
        Token::OpenParen,
        Token::Symbol("-".to_string()),
        Token::Integer(3),
        Token::Integer(4),
        Token::CloseParen,
        Token::Quote,
        Token::Symbol("foo".to_string()),
        Token::Keyword("keyword".to_string()),
        Token::String("string".to_string()),
        Token::CloseParen,
    ];
    let mut parser = Parser::new(&tokens);
    assert_eq!(
        parser.parse(),
        Ok(Expr::List(vec![
            Expr::Symbol("+".to_string()),
            Expr::Integer(1),
            Expr::Float("2.0".to_string()),
            Expr::List(vec![
                Expr::Symbol("-".to_string()),
                Expr::Integer(3),
                Expr::Integer(4)
            ]),
            Expr::Quote(Box::new(Expr::Symbol("foo".to_string()))),
            Expr::Keyword("keyword".to_string()),
            Expr::String("string".to_string()),
        ]))
    );
}

#[test]
fn reads_nested_arithmetic() {
    assert_eq!(
        read("(+ 1 2.0 (- 3 4))"),
        Ok(Expr::List(vec![
            sym("+"),
            Expr::Integer(1),
            Expr::Float("2.0".to_string()),
            Expr::List(vec![sym("-"), Expr::Integer(3), Expr::Integer(4)]),
        ]))
    );
}

#[test]
fn reads_quoted_symbol() {
    assert_eq!(read("'foo"), Ok(Expr::Quote(Box::new(sym("foo")))));
    assert_eq!(
        read("''(a)"),
        Ok(Expr::Quote(Box::new(Expr::Quote(Box::new(Expr::List(vec![sym("a")]))))))
    );
}

#[test]
fn lone_close_paren_is_unexpected_token() {
    assert_eq!(read(")"), Err(ReadError::UnexpectedToken));
    assert_eq!(read("(a ))").map(|_| ()), Ok(()));
    assert_eq!(read("'"), Err(ReadError::UnexpectedEndOfInput));
}

#[test]
fn empty_input_is_end_of_input() {
    assert_eq!(read(""), Err(ReadError::UnexpectedEndOfInput));
}

#[test]
fn open_list_is_end_of_input() {
    assert_eq!(read("(a (b)"), Err(ReadError::UnexpectedEndOfInput));
}

#[test]
fn empty_list() {
    assert_eq!(read("()"), Ok(Expr::List(vec![])));
}

#[test]
fn reads_one_form_per_call() {
    let tokens = tokens_of("a (b) 3");
    let mut parser = Parser::new(&tokens);
    assert_eq!(parser.parse(), Ok(sym("a")));
    assert_eq!(parser.parse(), Ok(Expr::List(vec![sym("b")])));
    assert_eq!(parser.parse(), Ok(Expr::Integer(3)));
    assert_eq!(parser.parse(), Err(ReadError::UnexpectedEndOfInput));
}

#[test]
fn parens_match_list_count() {
    let input = "(a (b (c)) () '(d) e)";
    let tokens = tokens_of(input);
    let opens = tokens.iter().filter(|t| **t == Token::OpenParen).count();
    let closes = tokens.iter().filter(|t| **t == Token::CloseParen).count();
    let e = Parser::new(&tokens).parse().unwrap();
    assert_eq!(opens, 5);
    assert_eq!(closes, 5);
    assert_eq!(count_lists(&e), 5);
}

#[test]
fn fresh_readers_agree() {
    let tokens = tokens_of("(x '(y :z) \"w\" 12)");
    let a = Parser::new(&tokens).parse();
    let b = Parser::new(&tokens).parse();
    assert_eq!(a, b);
    assert!(a.is_ok());
}

#[test]
fn error_messages() {
    assert_eq!(ReadError::UnexpectedToken.message(), "Unexpected token");
    assert_eq!(ReadError::UnexpectedEndOfInput.message(), "Unexpected end of input");
    assert_eq!(ReadError::UnterminatedString.message(), "Unterminated string");
    assert_eq!(ReadError::InvalidNumericLiteral.message(), "Invalid numeric literal");
}
