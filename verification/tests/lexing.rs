//! Tests for the lexer.

use librealgebra::lex::Token;

#[test]
fn fine() {
    let mut lex = Token::lexer(r#",|~()123"Abc"Abc"#.as_bytes());
    let mut next = || format!("{:?}", lex.next());
    assert_eq!(next(), "Some(Comma)");
    assert_eq!(next(), "Some(Pipe)");
    assert_eq!(next(), "Some(Tilde)");
    assert_eq!(next(), "Some(LeftParenthesis)");
    assert_eq!(next(), "Some(RightParenthesis)");
    assert_eq!(next(), "Some(Integer(123))");
    assert_eq!(next(), "Some(String([65, 98, 99]))");
    assert_eq!(next(), "Some(Identifier([65, 98, 99]))");
    assert_eq!(next(), "None");
}

#[test]
fn whitespace_is_skipped() {
    let mut lex = Token::lexer(b" \t\r\n 7 ,  ");
    assert_eq!(format!("{:?}", lex.next()), "Some(Integer(7))");
    assert_eq!(format!("{:?}", lex.next()), "Some(Comma)");
    assert_eq!(format!("{:?}", lex.next()), "None");
}

#[test]
fn integer_extremes() {
    let mut lex = Token::lexer(b"2147483647");
    assert_eq!(format!("{:?}", lex.next()), "Some(Integer(2147483647))");
    assert_eq!(format!("{:?}", lex.next()), "None");
}

#[test]
fn integer_overflow_is_an_error() {
    let mut lex = Token::lexer(b"2147483648");
    assert_eq!(format!("{:?}", lex.next()), "Some(Error)");
    assert_eq!(format!("{:?}", lex.next()), "None");
}

#[test]
fn empty_string_is_an_error() {
    let mut lex = Token::lexer(br#""" "#);
    assert_eq!(format!("{:?}", lex.next()), "Some(Error)");
}

#[test]
fn unterminated_string_is_an_error() {
    let mut lex = Token::lexer(br#""abc"#);
    assert_eq!(format!("{:?}", lex.next()), "Some(Error)");
}

#[test]
fn unknown_byte_is_an_error() {
    let mut lex = Token::lexer(b"+");
    assert_eq!(format!("{:?}", lex.next()), "Some(Error)");
    assert_eq!(format!("{:?}", lex.next()), "None");
}
