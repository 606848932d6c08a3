use r9cc::ast::{Error as ParseError, Kind};
use r9cc::codegen::Error as GenerateError;
use r9cc::lex::{Annot, Error as ScanError, ErrorKind, Ident, Loc, Token, TokenKind};
use r9cc::Error;

#[test]
fn failures_are_wrapped_by_their_stage() {
    let scan = ScanError::invalid_char('#', Loc(3, 4));
    assert_eq!(Error::from(scan), Error::Lexer(scan));
    let end = ScanError::eof(Loc(7, 7));
    assert_eq!(Error::from(end), Error::Lexer(end));
    let parse = ParseError::UnexpectedToken(Token::rparen(Loc(0, 1)));
    assert_eq!(Error::from(parse), Error::Parser(parse));
    assert_eq!(Error::from(ParseError::Eof), Error::Parser(ParseError::Eof));
    let generate = GenerateError::UnexpectedNode(Kind::Assign);
    assert_eq!(Error::from(generate), Error::Asm(generate));
    assert_ne!(Error::InputRequired, Error::Parser(ParseError::Eof));
}

#[test]
fn annotated_values_keep_their_parts() {
    let annotated = Annot::new(7u8, Loc(1, 2));
    assert_eq!(annotated.value, 7);
    assert_eq!(annotated.loc, Loc(1, 2));
    assert_eq!(annotated.loc.0, 1);
    assert_eq!(annotated.loc.1, 2);
    let failure = ScanError::invalid_char('?', Loc(5, 6));
    assert_eq!(failure.value, ErrorKind::InvalidChar('?'));
    assert_eq!(failure.loc, Loc(5, 6));
    assert_eq!(ScanError::eof(Loc(9, 9)).value, ErrorKind::Eof);
    let name = Token::ident('k', Loc(0, 1));
    assert_eq!(name.value, TokenKind::Ident(Ident::new('k')));
    assert_eq!(Ident::new('k').name, 'k');
    assert_eq!(name.clone(), name);
}
