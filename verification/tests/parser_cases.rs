use r9cc::ast::{Error as ParseError, Kind, LocalVar, Node, Parser};
use r9cc::lex::{Loc, Token};
use r9cc::{parse, tokenize, Error};

fn trees(input: &str) -> Vec<Node> {
    parse(tokenize(input).unwrap()).unwrap()
}

fn tree(input: &str) -> Node {
    let mut program = trees(input);
    assert_eq!(program.len(), 1);
    program.remove(0)
}

fn failure(input: &str) -> ParseError {
    match parse(tokenize(input).unwrap()) {
        Err(Error::Parser(e)) => e,
        other => panic!("no parser failure: {:?}", other),
    }
}

fn var(name: char) -> Node {
    Node::local_var(LocalVar::of(name).offset)
}

#[test]
fn product_binds_tighter_than_sum() {
    assert_eq!(
        tree("1+2*3;"),
        Node::with(Kind::Add, Node::number(1), Node::ops(Kind::Mul, 2, 3))
    );
    assert_ne!(
        tree("1+2*3;"),
        Node::with(Kind::Mul, Node::ops(Kind::Add, 1, 2), Node::number(3))
    );
    assert_eq!(
        tree("1*2+3;"),
        Node::with(Kind::Add, Node::ops(Kind::Mul, 1, 2), Node::number(3))
    );
}

#[test]
fn levels_bind_in_their_order() {
    // a = ((1 == (2 < (3 + (4 * 5)))))
    assert_eq!(
        tree("a=1==2<3+4*5;"),
        Node::with(
            Kind::Assign,
            var('a'),
            Node::with(
                Kind::Eq,
                Node::number(1),
                Node::with(
                    Kind::Lt,
                    Node::number(2),
                    Node::with(Kind::Add, Node::number(3), Node::ops(Kind::Mul, 4, 5)),
                ),
            ),
        )
    );
}

#[test]
fn binary_operators_associate_to_the_left() {
    assert_eq!(
        tree("1-2-3;"),
        Node::with(Kind::Sub, Node::ops(Kind::Sub, 1, 2), Node::number(3))
    );
    assert_eq!(
        tree("8/4/2;"),
        Node::with(Kind::Div, Node::ops(Kind::Div, 8, 4), Node::number(2))
    );
    assert_eq!(
        tree("1==2!=3;"),
        Node::with(Kind::Ne, Node::ops(Kind::Eq, 1, 2), Node::number(3))
    );
    assert_eq!(
        tree("1<2<=3;"),
        Node::with(Kind::Le, Node::ops(Kind::Lt, 1, 2), Node::number(3))
    );
}

#[test]
fn assignment_associates_to_the_right() {
    assert_eq!(
        tree("a=b=3;"),
        Node::with(
            Kind::Assign,
            var('a'),
            Node::with(Kind::Assign, var('b'), Node::number(3)),
        )
    );
}

#[test]
fn greater_is_less_with_operands_exchanged() {
    assert_eq!(tree("1>3;"), tree("3<1;"));
    assert_eq!(tree("1>3;"), Node::ops(Kind::Lt, 3, 1));
    assert_eq!(tree("1>=3;"), tree("3<=1;"));
    assert_eq!(tree("1>=3;"), Node::ops(Kind::Le, 3, 1));
    // 1 > 2 > 3 is (2 < 1) > 3, which is 3 < (2 < 1).
    assert_eq!(
        tree("1>2>3;"),
        Node::with(Kind::Lt, Node::number(3), Node::ops(Kind::Lt, 2, 1))
    );
}

#[test]
fn signs_before_operands() {
    assert_eq!(
        tree("-3*+5;"),
        Node::with(Kind::Mul, Node::ops(Kind::Sub, 0, 3), Node::number(5))
    );
    assert_eq!(
        tree("-(1+2);"),
        Node::with(Kind::Sub, Node::number(0), Node::ops(Kind::Add, 1, 2))
    );
    assert_eq!(tree("-a;"), Node::with(Kind::Sub, Node::number(0), var('a')));
    assert_eq!(tree("+a;"), var('a'));
    assert_eq!(tree("1--2;"), Node::with(
        Kind::Sub,
        Node::number(1),
        Node::ops(Kind::Sub, 0, 2),
    ));
}

#[test]
fn sign_takes_one_operand_only() {
    match failure("--1;") {
        ParseError::UnexpectedToken(token) => assert_eq!(token, Token::minus(Loc(1, 2))),
        other => panic!("{:?}", other),
    }
}

#[test]
fn parentheses_group() {
    assert_eq!(
        tree("(1+2)*3;"),
        Node::with(Kind::Mul, Node::ops(Kind::Add, 1, 2), Node::number(3))
    );
    assert_eq!(tree("((7));"), Node::number(7));
    assert_eq!(
        tree("(a=1)+2;"),
        Node::with(
            Kind::Add,
            Node::with(Kind::Assign, var('a'), Node::number(1)),
            Node::number(2),
        )
    );
}

#[test]
fn variables_have_their_slots() {
    assert_eq!(tree("a;"), Node::local_var(8));
    assert_eq!(tree("b;"), Node::local_var(16));
    assert_eq!(tree("z;"), Node::local_var(208));
    let mut seen = Vec::new();
    for (index, name) in ('a'..='z').enumerate() {
        let offset = LocalVar::of(name).offset;
        assert_eq!(offset, (index as u64 + 1) * 8);
        assert!(!seen.contains(&offset));
        seen.push(offset);
    }
    assert_eq!(seen.len(), 26);
}

#[test]
fn statements_come_in_their_order() {
    assert_eq!(
        trees("a=3;b=5;a+b;"),
        vec![
            Node::with(Kind::Assign, var('a'), Node::number(3)),
            Node::with(Kind::Assign, var('b'), Node::number(5)),
            Node::with(Kind::Add, var('a'), var('b')),
        ]
    );
    assert_eq!(trees(""), vec![]);
    assert_eq!(trees("  "), vec![]);
}

#[test]
fn tokens_that_end_early_are_the_end_of_input() {
    assert_eq!(failure("1+"), ParseError::Eof);
    assert_eq!(failure("1"), ParseError::Eof);
    assert_eq!(failure("(1"), ParseError::Eof);
    assert_eq!(failure("a="), ParseError::Eof);
    assert_eq!(failure("-"), ParseError::Eof);
    assert_eq!(failure("1;2"), ParseError::Eof);
}

#[test]
fn tokens_without_end_marker_end_the_same_way() {
    let tokens = vec![Token::number(1, Loc(0, 1)), Token::plus(Loc(1, 2))];
    assert_eq!(parse(tokens), Err(Error::Parser(ParseError::Eof)));
    let tokens = vec![Token::number(1, Loc(0, 1)), Token::semi_colon(Loc(1, 2))];
    assert_eq!(parse(tokens), Ok(vec![Node::number(1)]));
    assert_eq!(parse(vec![]), Ok(vec![]));
}

#[test]
fn missing_parenthesis_is_an_unexpected_token() {
    assert_eq!(
        failure("(1+2;"),
        ParseError::UnexpectedToken(Token::semi_colon(Loc(4, 5)))
    );
}

#[test]
fn token_out_of_place_is_unexpected() {
    assert_eq!(
        failure("1+;"),
        ParseError::UnexpectedToken(Token::semi_colon(Loc(2, 3)))
    );
    assert_eq!(
        failure(";"),
        ParseError::UnexpectedToken(Token::semi_colon(Loc(0, 1)))
    );
    assert_eq!(
        failure("1 2;"),
        ParseError::UnexpectedToken(Token::number(2, Loc(2, 3)))
    );
    assert_eq!(
        failure("a b;"),
        ParseError::UnexpectedToken(Token::ident('b', Loc(2, 3)))
    );
    assert_eq!(
        failure("1);"),
        ParseError::UnexpectedToken(Token::rparen(Loc(1, 2)))
    );
    assert_eq!(
        failure("*1;"),
        ParseError::UnexpectedToken(Token::asterisk(Loc(0, 1)))
    );
}

#[test]
fn first_failure_stops_the_parser() {
    assert_eq!(
        failure("1;*;2 3;"),
        ParseError::UnexpectedToken(Token::asterisk(Loc(2, 3)))
    );
}

#[test]
fn identifier_that_is_no_letter_is_unexpected() {
    let odd = Token::ident('A', Loc(0, 1));
    let tokens = vec![odd, Token::semi_colon(Loc(1, 2))];
    assert_eq!(
        parse(tokens),
        Err(Error::Parser(ParseError::UnexpectedToken(odd)))
    );
}

#[test]
fn what_follows_the_end_marker_is_not_read() {
    let tokens = vec![
        Token::number(1, Loc(0, 1)),
        Token::semi_colon(Loc(1, 2)),
        Token::eof(Loc(2, 2)),
        Token::plus(Loc(2, 3)),
    ];
    assert_eq!(parse(tokens), Ok(vec![Node::number(1)]));
}

#[test]
fn assignment_to_a_number_is_parsed() {
    assert_eq!(tree("1=2;"), Node::with(Kind::Assign, Node::number(1), Node::number(2)));
}

#[test]
fn parser_stops_behind_what_it_took() {
    let tokens = tokenize("1+2;3;").unwrap();
    let mut parser = Parser::new(tokens);
    assert_eq!(parser.expr(), Ok(Node::ops(Kind::Add, 1, 2)));
    assert_eq!(
        parser.expr(),
        Err(ParseError::UnexpectedToken(Token::semi_colon(Loc(3, 4))))
    );
    let mut parser = Parser::new(tokenize("1+2;3;").unwrap());
    assert_eq!(parser.stmt(), Ok(Node::ops(Kind::Add, 1, 2)));
    assert_eq!(parser.program(), Ok(vec![Node::number(3)]));
}

#[test]
fn nodes_are_built_from_their_parts() {
    let node = Node::new(Kind::Add, Node::link(Node::number(1)), Node::link(Node::number(2)));
    assert_eq!(node, Node::ops(Kind::Add, 1, 2));
    assert_eq!(node.kind, Kind::Add);
    assert_eq!(node.lhs, Some(Box::new(Node::number(1))));
    let leaf = Node::local_var(24);
    assert_eq!(leaf.kind, Kind::LocalVar(LocalVar { offset: 24 }));
    assert_eq!(leaf.lhs, None);
    assert_eq!(leaf.rhs, None);
    assert_eq!(Node::number(5).kind, Kind::Number(5));
}
