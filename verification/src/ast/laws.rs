use crate::ast::node::{Kind, LocalVar, Node};
use crate::ast::parser::{
    apply, assignment, at_end, binary, binary_rest, expression, holds, holds_operator, level_rank,
    operand, operator_level, primary, program, remaining, statement, statements, unary, Error,
    Level, Parsed,
};
use crate::lex::token::{Ident, Token, TokenKind};
use vstd::prelude::*;

verus! {

/// What holds of every success of a rule of the grammar that starts at
/// `pos`: the rule took at least one token, it took no more than there are,
/// and the tree that it built is well formed.
pub open spec fn sound(ts: Seq<Token>, pos: int, parsed: Parsed) -> bool {
    parsed matches Ok((node, next)) ==> pos < next <= ts.len() && node.well_formed()
}

proof fn lemma_primary(ts: Seq<Token>, pos: int)
    requires
        0 <= pos,
    ensures
        sound(ts, pos, primary(ts, pos)),
    decreases remaining(ts, pos), 1int,
{
    if holds(ts, pos, TokenKind::LParen) {
        lemma_expression(ts, pos + 1);
    }
}

proof fn lemma_unary(ts: Seq<Token>, pos: int)
    requires
        0 <= pos,
    ensures
        sound(ts, pos, unary(ts, pos)),
    decreases remaining(ts, pos), 2int,
{
    if holds(ts, pos, TokenKind::Plus) || holds(ts, pos, TokenKind::Minus) {
        reveal_with_fuel(Node::well_formed, 2);
        lemma_primary(ts, pos + 1);
    } else {
        lemma_primary(ts, pos);
    }
}

proof fn lemma_operand(ts: Seq<Token>, level: Level, pos: int)
    requires
        0 <= pos,
    ensures
        sound(ts, pos, operand(ts, level, pos)),
    decreases remaining(ts, pos), 3 * level_rank(level),
{
    match level {
        Level::Equality => lemma_binary(ts, Level::Relational, pos),
        Level::Relational => lemma_binary(ts, Level::Additive, pos),
        Level::Additive => lemma_binary(ts, Level::Multiplicative, pos),
        Level::Multiplicative => lemma_unary(ts, pos),
    }
}

proof fn lemma_binary_rest(ts: Seq<Token>, level: Level, lhs: Node, pos: int)
    requires
        0 <= pos <= ts.len(),
        lhs.well_formed(),
    ensures
        binary_rest(ts, level, lhs, pos) matches Ok((node, next)) ==> pos <= next <= ts.len()
            && node.well_formed(),
    decreases remaining(ts, pos), 3 * level_rank(level) + 1,
{
    if holds_operator(ts, pos, level) {
        lemma_operand(ts, level, pos + 1);
        if let Ok((rhs, next)) = operand(ts, level, pos + 1) {
            lemma_binary_rest(ts, level, apply(ts[pos].value, lhs, rhs), next);
        }
    }
}

proof fn lemma_binary(ts: Seq<Token>, level: Level, pos: int)
    requires
        0 <= pos,
    ensures
        sound(ts, pos, binary(ts, level, pos)),
    decreases remaining(ts, pos), 3 * level_rank(level) + 2,
{
    lemma_operand(ts, level, pos);
    if let Ok((lhs, next)) = operand(ts, level, pos) {
        lemma_binary_rest(ts, level, lhs, next);
    }
}

proof fn lemma_assignment(ts: Seq<Token>, pos: int)
    requires
        0 <= pos,
    ensures
        sound(ts, pos, assignment(ts, pos)),
    decreases remaining(ts, pos), 15int,
{
    lemma_binary(ts, Level::Equality, pos);
    if let Ok((lhs, next)) = binary(ts, Level::Equality, pos) {
        if holds(ts, next, TokenKind::Assign) {
            lemma_assignment(ts, next + 1);
        }
    }
}

proof fn lemma_expression(ts: Seq<Token>, pos: int)
    requires
        0 <= pos,
    ensures
        sound(ts, pos, expression(ts, pos)),
    decreases remaining(ts, pos), 16int,
{
    lemma_assignment(ts, pos);
}

/// Every rule of the grammar that succeeds takes at least one token and
/// builds a well-formed tree.
pub proof fn lemma_rules_sound(ts: Seq<Token>, pos: int)
    requires
        0 <= pos,
    ensures
        sound(ts, pos, primary(ts, pos)),
        sound(ts, pos, unary(ts, pos)),
        forall|level: Level| #[trigger] sound(ts, pos, binary(ts, level, pos)),
        sound(ts, pos, assignment(ts, pos)),
        sound(ts, pos, expression(ts, pos)),
        sound(ts, pos, statement(ts, pos)),
{
    lemma_primary(ts, pos);
    lemma_unary(ts, pos);
    assert forall|level: Level| #[trigger] sound(ts, pos, binary(ts, level, pos)) by {
        lemma_binary(ts, level, pos);
    }
    lemma_assignment(ts, pos);
    lemma_expression(ts, pos);
}

/// The grammar asks, where one operand follows another, whether the first
/// took a token. It always did: the rules are those of the grammar as it is
/// written down.
pub proof fn lemma_rules_unguarded(ts: Seq<Token>, level: Level, lhs: Node, pos: int)
    requires
        0 <= pos,
    ensures
        binary(ts, level, pos) == match operand(ts, level, pos) {
            Ok((first, next)) => binary_rest(ts, level, first, next),
            Err(e) => Err(e),
        },
        binary_rest(ts, level, lhs, pos) == if holds_operator(ts, pos, level) {
            match operand(ts, level, pos + 1) {
                Ok((rhs, next)) => binary_rest(
                    ts,
                    level,
                    apply(ts[pos].value, lhs, rhs),
                    next,
                ),
                Err(e) => Err(e),
            }
        } else {
            Ok((lhs, pos))
        },
        assignment(ts, pos) == match binary(ts, Level::Equality, pos) {
            Ok((target, next)) => if holds(ts, next, TokenKind::Assign) {
                match assignment(ts, next + 1) {
                    Ok((rhs, end)) => Ok((Node::binary(Kind::Assign, target, rhs), end)),
                    Err(e) => Err(e),
                }
            } else {
                Ok((target, next))
            },
            Err(e) => Err(e),
        },
        statements(ts, pos) == if at_end(ts, pos) {
            Ok(Seq::empty())
        } else {
            match statement(ts, pos) {
                Ok((node, next)) => match statements(ts, next) {
                    Ok(rest) => Ok(seq![node] + rest),
                    Err(e) => Err(e),
                },
                Err(e) => Err(e),
            }
        },
{
    lemma_operand(ts, level, pos);
    lemma_operand(ts, level, pos + 1);
    lemma_binary(ts, Level::Equality, pos);
    lemma_expression(ts, pos);
}

/// Every statement that the parser builds is well formed: an operator or
/// an assignment has its two operands, a number or a variable has none, and
/// a variable has its slot in the frame.
pub proof fn lemma_program_well_formed(ts: Seq<Token>)
    ensures
        program(ts) matches Ok(nodes) ==> forall|i: int|
            0 <= i < nodes.len() ==> (#[trigger] nodes[i]).well_formed(),
{
    lemma_statements_well_formed(ts, 0);
}

proof fn lemma_statements_well_formed(ts: Seq<Token>, pos: int)
    requires
        0 <= pos,
    ensures
        statements(ts, pos) matches Ok(nodes) ==> forall|i: int|
            0 <= i < nodes.len() ==> (#[trigger] nodes[i]).well_formed(),
    decreases remaining(ts, pos),
{
    if !at_end(ts, pos) {
        lemma_expression(ts, pos);
        if let Ok((node, next)) = statement(ts, pos) {
            lemma_statements_well_formed(ts, next);
        }
    }
}

/// Whether the tokens `ts` are of the kinds `kinds`, in that order,
/// wherever in the text they stand.
pub open spec fn spells(ts: Seq<Token>, kinds: Seq<TokenKind>) -> bool {
    &&& ts.len() == kinds.len()
    &&& forall|i: int| 0 <= i < ts.len() ==> (#[trigger] ts[i]).value == kinds[i]
}

/// The tree of the number `n`.
pub open spec fn number(n: u64) -> Node {
    Node::leaf(Kind::Number(n))
}

/// The tree of the variable called `name`.
pub open spec fn variable(name: char) -> Node {
    Node::leaf(Kind::LocalVar(LocalVar { offset: LocalVar::offset_of(name) as u64 }))
}

/// The token of the variable called `name`.
pub open spec fn name_token(name: char) -> TokenKind {
    TokenKind::Ident(Ident { name })
}

/// Whether no binary operator stands at `pos`.
pub open spec fn no_operator(ts: Seq<Token>, pos: int) -> bool {
    0 <= pos < ts.len() ==> operator_level(ts[pos].value) is None
}

/// A product that no binary operator follows is an operand of every level.
proof fn lemma_product_alone(ts: Seq<Token>, pos: int, node: Node, next: int)
    requires
        0 <= pos,
        binary(ts, Level::Multiplicative, pos) == Ok::<(Node, int), Error>((node, next)),
        no_operator(ts, next),
    ensures
        binary(ts, Level::Additive, pos) == Ok::<(Node, int), Error>((node, next)),
        binary(ts, Level::Relational, pos) == Ok::<(Node, int), Error>((node, next)),
        binary(ts, Level::Equality, pos) == Ok::<(Node, int), Error>((node, next)),
        !holds(ts, next, TokenKind::Assign) ==> expression(ts, pos) == Ok::<(Node, int), Error>(
            (node, next),
        ),
{
    lemma_binary(ts, Level::Multiplicative, pos);
    assert(operand(ts, Level::Additive, pos) == binary(ts, Level::Multiplicative, pos));
    assert(binary(ts, Level::Additive, pos) == binary_rest(ts, Level::Additive, node, next));
    assert(operand(ts, Level::Relational, pos) == binary(ts, Level::Additive, pos));
    assert(binary(ts, Level::Relational, pos) == binary_rest(ts, Level::Relational, node, next));
    assert(operand(ts, Level::Equality, pos) == binary(ts, Level::Relational, pos));
    assert(binary(ts, Level::Equality, pos) == binary_rest(ts, Level::Equality, node, next));
}

/// A number or a variable that neither `*` nor `/` follows is a product.
proof fn lemma_leaf_alone(ts: Seq<Token>, pos: int)
    requires
        0 <= pos < ts.len(),
        ts[pos].value is Number || (ts[pos].value matches TokenKind::Ident(ident)
            && LocalVar::is_name(ident.name)),
        !holds_operator(ts, pos + 1, Level::Multiplicative),
    ensures
        binary(ts, Level::Multiplicative, pos) == Ok::<(Node, int), Error>(
            (
                match ts[pos].value {
                    TokenKind::Ident(ident) => variable(ident.name),
                    TokenKind::Number(n) => number(n),
                    _ => arbitrary(),
                },
                pos + 1,
            ),
        ),
{
    assert(unary(ts, pos) == primary(ts, pos));
    assert(operand(ts, Level::Multiplicative, pos) == unary(ts, pos));
}

/// A statement at the end of the tokens is all the statements from there.
proof fn lemma_last_statement(ts: Seq<Token>, pos: int, node: Node)
    requires
        0 <= pos,
        expression(ts, pos) == Ok::<(Node, int), Error>((node, ts.len() - 1)),
        ts.len() > 0,
        ts.last().value is SemiColon,
    ensures
        statements(ts, pos) == Ok::<Seq<Node>, Error>(seq![node]),
{
    lemma_expression(ts, pos);
    assert(statement(ts, pos) == Ok::<(Node, int), Error>((node, ts.len() as int)));
    assert(statements(ts, ts.len() as int) == Ok::<Seq<Node>, Error>(Seq::empty()));
    assert(seq![node] + Seq::<Node>::empty() =~= seq![node]);
}

/// Multiplication binds tighter than addition: `a + b * c;` is
/// `a + (b * c)`, whatever the numbers `a`, `b` and `c`.
pub proof fn lemma_product_before_sum(ts: Seq<Token>, a: u64, b: u64, c: u64)
    requires
        spells(
            ts,
            seq![
                TokenKind::Number(a),
                TokenKind::Plus,
                TokenKind::Number(b),
                TokenKind::Asterisk,
                TokenKind::Number(c),
                TokenKind::SemiColon,
            ],
        ),
    ensures
        program(ts) == Ok::<Seq<Node>, Error>(
            seq![
                Node::binary(Kind::Add, number(a), Node::binary(Kind::Mul, number(b), number(c))),
            ],
        ),
{
    let product = Node::binary(Kind::Mul, number(b), number(c));
    let sum = Node::binary(Kind::Add, number(a), product);
    assert(ts[1].value == TokenKind::Plus && ts[3].value == TokenKind::Asterisk);
    assert(ts[0].value == TokenKind::Number(a) && ts[2].value == TokenKind::Number(b));
    assert(ts[4].value == TokenKind::Number(c) && ts[5].value == TokenKind::SemiColon);
    lemma_leaf_alone(ts, 0);
    assert(operand(ts, Level::Multiplicative, 4) == unary(ts, 4));
    assert(operand(ts, Level::Multiplicative, 2) == unary(ts, 2));
    assert(binary_rest(ts, Level::Multiplicative, product, 5) == Ok::<(Node, int), Error>(
        (product, 5),
    ));
    assert(binary_rest(ts, Level::Multiplicative, number(b), 3) == Ok::<(Node, int), Error>(
        (product, 5),
    ));
    assert(binary(ts, Level::Multiplicative, 2) == Ok::<(Node, int), Error>((product, 5)));
    assert(operand(ts, Level::Additive, 0) == binary(ts, Level::Multiplicative, 0));
    assert(operand(ts, Level::Additive, 2) == binary(ts, Level::Multiplicative, 2));
    assert(binary_rest(ts, Level::Additive, sum, 5) == Ok::<(Node, int), Error>((sum, 5)));
    assert(binary_rest(ts, Level::Additive, number(a), 1) == Ok::<(Node, int), Error>((sum, 5)));
    assert(binary(ts, Level::Additive, 0) == Ok::<(Node, int), Error>((sum, 5)));
    assert(operand(ts, Level::Relational, 0) == binary(ts, Level::Additive, 0));
    assert(binary(ts, Level::Relational, 0) == Ok::<(Node, int), Error>((sum, 5)));
    assert(operand(ts, Level::Equality, 0) == binary(ts, Level::Relational, 0));
    assert(binary(ts, Level::Equality, 0) == Ok::<(Node, int), Error>((sum, 5)));
    lemma_last_statement(ts, 0, sum);
}

/// Assignment associates to the right: `x = y = n;` is `x = (y = n)`,
/// whatever the variables `x` and `y` and the number `n`.
pub proof fn lemma_assignment_to_the_right(ts: Seq<Token>, x: char, y: char, n: u64)
    requires
        LocalVar::is_name(x),
        LocalVar::is_name(y),
        spells(
            ts,
            seq![
                name_token(x),
                TokenKind::Assign,
                name_token(y),
                TokenKind::Assign,
                TokenKind::Number(n),
                TokenKind::SemiColon,
            ],
        ),
    ensures
        program(ts) == Ok::<Seq<Node>, Error>(
            seq![
                Node::binary(
                    Kind::Assign,
                    variable(x),
                    Node::binary(Kind::Assign, variable(y), number(n)),
                ),
            ],
        ),
{
    let inner = Node::binary(Kind::Assign, variable(y), number(n));
    let outer = Node::binary(Kind::Assign, variable(x), inner);
    assert(ts[0].value == name_token(x) && ts[1].value == TokenKind::Assign);
    assert(ts[2].value == name_token(y) && ts[3].value == TokenKind::Assign);
    assert(ts[4].value == TokenKind::Number(n) && ts[5].value == TokenKind::SemiColon);
    lemma_leaf_alone(ts, 0);
    lemma_leaf_alone(ts, 2);
    lemma_leaf_alone(ts, 4);
    lemma_product_alone(ts, 0, variable(x), 1);
    lemma_product_alone(ts, 2, variable(y), 3);
    lemma_product_alone(ts, 4, number(n), 5);
    assert(assignment(ts, 4) == Ok::<(Node, int), Error>((number(n), 5)));
    assert(assignment(ts, 2) == Ok::<(Node, int), Error>((inner, 5)));
    assert(assignment(ts, 0) == Ok::<(Node, int), Error>((outer, 5)));
    lemma_last_statement(ts, 0, outer);
}

/// The tree has no kind for "greater": `l > r` is built as `r < l`, and
/// `l >= r` as `r <= l`, whatever the operands.
pub proof fn lemma_greater_is_less_exchanged(l: Node, r: Node)
    ensures
        apply(TokenKind::Gt, l, r) == apply(
            TokenKind::Lt,
            r,
            l,
        ),
        apply(TokenKind::Ge, l, r) == apply(
            TokenKind::Le,
            r,
            l,
        ),
{
}

/// A sign before an operand: `+x` is `x`, and `-x` is built as `0 - x`,
/// whatever the operand.
pub proof fn lemma_signs(ts: Seq<Token>, pos: int)
    ensures
        holds(ts, pos, TokenKind::Plus) ==> unary(ts, pos) == primary(ts, pos + 1),
        holds(ts, pos, TokenKind::Minus) ==> unary(ts, pos) == match primary(ts, pos + 1) {
            Ok((operand, next)) => Ok((Node::binary(Kind::Sub, number(0), operand), next)),
            Err(e) => Err(e),
        },
{
}

/// `-a * +b;` is `(0 - a) * b`, whatever the numbers `a` and `b`.
pub proof fn lemma_signs_before_product(ts: Seq<Token>, a: u64, b: u64)
    requires
        spells(
            ts,
            seq![
                TokenKind::Minus,
                TokenKind::Number(a),
                TokenKind::Asterisk,
                TokenKind::Plus,
                TokenKind::Number(b),
                TokenKind::SemiColon,
            ],
        ),
    ensures
        program(ts) == Ok::<Seq<Node>, Error>(
            seq![
                Node::binary(
                    Kind::Mul,
                    Node::binary(Kind::Sub, number(0), number(a)),
                    number(b),
                ),
            ],
        ),
{
    let negated = Node::binary(Kind::Sub, number(0), number(a));
    let product = Node::binary(Kind::Mul, negated, number(b));
    assert(ts[0].value == TokenKind::Minus && ts[1].value == TokenKind::Number(a));
    assert(ts[2].value == TokenKind::Asterisk && ts[3].value == TokenKind::Plus);
    assert(ts[4].value == TokenKind::Number(b) && ts[5].value == TokenKind::SemiColon);
    assert(primary(ts, 1) == Ok::<(Node, int), Error>((number(a), 2)));
    assert(primary(ts, 4) == Ok::<(Node, int), Error>((number(b), 5)));
    assert(unary(ts, 0) == Ok::<(Node, int), Error>((negated, 2)));
    assert(unary(ts, 3) == Ok::<(Node, int), Error>((number(b), 5)));
    assert(operand(ts, Level::Multiplicative, 0) == unary(ts, 0));
    assert(operand(ts, Level::Multiplicative, 3) == unary(ts, 3));
    assert(binary_rest(ts, Level::Multiplicative, product, 5) == Ok::<(Node, int), Error>(
        (product, 5),
    ));
    assert(binary_rest(ts, Level::Multiplicative, negated, 2) == Ok::<(Node, int), Error>(
        (product, 5),
    ));
    assert(binary(ts, Level::Multiplicative, 0) == Ok::<(Node, int), Error>((product, 5)));
    lemma_product_alone(ts, 0, product, 5);
    lemma_last_statement(ts, 0, product);
}

} // verus!
