use r9cc::lex::{Error as ScanError, ErrorKind, Loc, Token};
use r9cc::{is_representable, tokenize, Error};

fn failure(input: &str) -> ScanError {
    match tokenize(input) {
        Err(Error::Lexer(e)) => e,
        other => panic!("no scanner failure: {:?}", other),
    }
}

#[test]
fn spaces_are_skipped_and_spans_kept() {
    assert_eq!(
        tokenize("  1  ").unwrap(),
        vec![Token::number(1, Loc(2, 3)), Token::eof(Loc(5, 5))]
    );
}

#[test]
fn carriage_return_and_form_feed_are_spaces() {
    assert_eq!(
        tokenize("1\r\n+\x0c2").unwrap(),
        vec![
            Token::number(1, Loc(0, 1)),
            Token::plus(Loc(3, 4)),
            Token::number(2, Loc(5, 6)),
            Token::eof(Loc(6, 6)),
        ]
    );
}

#[test]
fn empty_text_is_the_end_marker() {
    assert_eq!(tokenize("").unwrap(), vec![Token::eof(Loc(0, 0))]);
    assert_eq!(tokenize(" \t\n").unwrap(), vec![Token::eof(Loc(3, 3))]);
}

#[test]
fn invalid_character_is_reported_where_it_stands() {
    let e = failure("1@2;");
    assert_eq!(e.value, ErrorKind::InvalidChar('@'));
    assert_eq!(e.loc, Loc(1, 2));
}

#[test]
fn first_failure_wins() {
    let e = failure("a $ #");
    assert_eq!(e, ScanError::invalid_char('$', Loc(2, 3)));
}

#[test]
fn upper_case_letter_is_no_identifier() {
    assert_eq!(failure("A"), ScanError::invalid_char('A', Loc(0, 1)));
    assert_eq!(failure("aB"), ScanError::invalid_char('B', Loc(1, 2)));
}

#[test]
fn byte_beyond_ascii_is_reported_as_that_byte() {
    // U+00E9 is the two bytes c3 a9.
    assert_eq!(
        failure("1 \u{e9}"),
        ScanError::invalid_char('\u{c3}', Loc(2, 3))
    );
}

#[test]
fn exclamation_mark_at_the_end_runs_out_of_input() {
    assert_eq!(failure("!"), ScanError::eof(Loc(1, 1)));
    assert_eq!(failure("1 !"), ScanError::eof(Loc(3, 3)));
}

#[test]
fn exclamation_mark_before_another_byte_is_invalid() {
    assert_eq!(failure("!1"), ScanError::invalid_char('!', Loc(0, 1)));
    assert_eq!(failure("1 ! = 2"), ScanError::invalid_char('!', Loc(2, 3)));
    assert_eq!(failure("!!="), ScanError::invalid_char('!', Loc(0, 1)));
}

#[test]
fn two_byte_operators_fall_back_to_one_byte() {
    assert_eq!(
        tokenize("=<>").unwrap(),
        vec![
            Token::assign(Loc(0, 1)),
            Token::less_than(Loc(1, 2)),
            Token::greater_than(Loc(2, 3)),
            Token::eof(Loc(3, 3)),
        ]
    );
    assert_eq!(
        tokenize("===").unwrap(),
        vec![
            Token::equal(Loc(0, 2)),
            Token::assign(Loc(2, 3)),
            Token::eof(Loc(3, 3)),
        ]
    );
    assert_eq!(
        tokenize("<==>=").unwrap(),
        vec![
            Token::less_equal(Loc(0, 2)),
            Token::assign(Loc(2, 3)),
            Token::greater_equal(Loc(3, 5)),
            Token::eof(Loc(5, 5)),
        ]
    );
}

#[test]
fn each_letter_is_an_identifier_of_its_own() {
    assert_eq!(
        tokenize("ab").unwrap(),
        vec![
            Token::ident('a', Loc(0, 1)),
            Token::ident('b', Loc(1, 2)),
            Token::eof(Loc(2, 2)),
        ]
    );
    assert_eq!(
        tokenize("z9").unwrap(),
        vec![
            Token::ident('z', Loc(0, 1)),
            Token::number(9, Loc(1, 2)),
            Token::eof(Loc(2, 2)),
        ]
    );
}

#[test]
fn number_takes_all_its_digits() {
    assert_eq!(
        tokenize("007").unwrap(),
        vec![Token::number(7, Loc(0, 3)), Token::eof(Loc(3, 3))]
    );
    assert_eq!(
        tokenize("12a").unwrap(),
        vec![
            Token::number(12, Loc(0, 2)),
            Token::ident('a', Loc(2, 3)),
            Token::eof(Loc(3, 3)),
        ]
    );
}

#[test]
fn largest_number_is_read() {
    assert!(is_representable("18446744073709551615"));
    assert_eq!(
        tokenize("18446744073709551615").unwrap(),
        vec![
            Token::number(u64::MAX, Loc(0, 20)),
            Token::eof(Loc(20, 20)),
        ]
    );
    assert!(is_representable("000000000000000000000018446744073709551615"));
}

#[test]
fn number_beyond_64_bits_is_not_representable() {
    assert!(!is_representable("18446744073709551616"));
    assert!(!is_representable("1 + 99999999999999999999;"));
    assert!(!is_representable("184467440737095516150"));
}

#[test]
fn number_behind_a_failure_is_never_read() {
    assert!(is_representable("@ 99999999999999999999"));
    assert!(is_representable("! 99999999999999999999"));
    assert_eq!(
        failure("@ 99999999999999999999"),
        ScanError::invalid_char('@', Loc(0, 1))
    );
}

#[test]
fn ordinary_text_is_representable() {
    assert!(is_representable(""));
    assert!(is_representable("a=3;b=5;a+b;"));
    assert!(is_representable("1@2;"));
}

#[test]
fn statement_is_scanned_whole() {
    assert_eq!(
        tokenize("a=3;b=5;a+b;").unwrap(),
        vec![
            Token::ident('a', Loc(0, 1)),
            Token::assign(Loc(1, 2)),
            Token::number(3, Loc(2, 3)),
            Token::semi_colon(Loc(3, 4)),
            Token::ident('b', Loc(4, 5)),
            Token::assign(Loc(5, 6)),
            Token::number(5, Loc(6, 7)),
            Token::semi_colon(Loc(7, 8)),
            Token::ident('a', Loc(8, 9)),
            Token::plus(Loc(9, 10)),
            Token::ident('b', Loc(10, 11)),
            Token::semi_colon(Loc(11, 12)),
            Token::eof(Loc(12, 12)),
        ]
    );
}

#[test]
fn kinds_answer_requests() {
    let number = Token::number(4, Loc(0, 1));
    assert!(number.is_kind(Token::number(9, Loc(7, 8)).value));
    assert!(!number.is_kind(Token::plus(Loc(0, 1)).value));
    assert!(!number.is_ident());
    let name = Token::ident('q', Loc(0, 1));
    assert!(name.is_ident());
    assert!(name.is_kind(Token::ident('q', Loc(5, 6)).value));
    assert!(!name.is_kind(Token::ident('r', Loc(0, 1)).value));
    assert!(Token::eof(Loc(0, 0)).is_kind(Token::eof(Loc(3, 3)).value));
    assert!(Token::number(1, Loc(0, 1)).value.is_number());
    assert!(!Token::minus(Loc(0, 1)).value.is_number());
}
