use crate::ast::node::{Kind, LocalVar, Node};
use crate::ast::parser::{
    apply, assignment, at_end, binary, binary_rest, expression, holds, holds_operator, level_rank,
    operand, operator_level, primary, program, statement, statements, unary, Error, Level,
};
use crate::lex::token::{Ident, Token, TokenKind};
use vstd::prelude::*;

verus! {

/// How tightly a node of the kind `kind` holds its operands together: 0
/// for an assignment, 1 to 4 for the operators of the four levels, 5 for a
/// number or a variable, which can stand anywhere.
pub open spec fn tightness(kind: Kind) -> int {
    match kind {
        Kind::Assign => 0,
        Kind::Eq | Kind::Ne => 1,
        Kind::Lt | Kind::Le => 2,
        Kind::Add | Kind::Sub => 3,
        Kind::Mul | Kind::Div => 4,
        Kind::LocalVar(_) | Kind::Number(_) => 5,
    }
}

/// The tightness of the operators of the level `level`.
pub open spec fn level_tightness(level: Level) -> int {
    5 - level_rank(level)
}

/// The token that is written for a node of the kind `kind` between its
/// operands.
pub open spec fn operator_token(kind: Kind) -> TokenKind {
    match kind {
        Kind::Assign => TokenKind::Assign,
        Kind::Eq => TokenKind::Eq,
        Kind::Ne => TokenKind::Ne,
        Kind::Lt => TokenKind::Lt,
        Kind::Le => TokenKind::Le,
        Kind::Add => TokenKind::Plus,
        Kind::Sub => TokenKind::Minus,
        Kind::Mul => TokenKind::Asterisk,
        _ => TokenKind::Slash,
    }
}

/// The name of the variable whose slot lies `offset` below the frame base.
pub open spec fn name_at(offset: u64) -> char {
    ('a' as int + offset / 8 - 1) as char
}

/// The tokens of the tree `node` without parentheses around the whole.
pub open spec fn bare(node: Node) -> Seq<TokenKind>
    decreases node, 0int,
{
    match (node.kind, node.lhs, node.rhs) {
        (Kind::Number(n), _, _) => seq![TokenKind::Number(n)],
        (Kind::LocalVar(var), _, _) => seq![TokenKind::Ident(Ident { name: name_at(var.offset) })],
        (Kind::Assign, Some(lhs), Some(rhs)) => spelling(*lhs, 1) + seq![TokenKind::Assign]
            + spelling(*rhs, 0),
        (kind, Some(lhs), Some(rhs)) => spelling(*lhs, tightness(kind)) + seq![
            operator_token(kind),
        ] + spelling(*rhs, tightness(kind) + 1),
        _ => Seq::empty(),
    }
}

/// The tokens that spell the tree `node` where an operand of the tightness
/// `min` or more is asked for: those of the tree, in parentheses where the
/// tree holds together less tightly than that.
///
/// An operator is written between its operands. On its left it takes what
/// holds together as tightly as itself, on its right only what holds
/// tighter: the operators take their operands from the left. An assignment
/// takes another assignment on its right.
pub open spec fn spelling(node: Node, min: int) -> Seq<TokenKind>
    decreases node, 1int,
{
    if tightness(node.kind) < min {
        seq![TokenKind::LParen] + bare(node) + seq![TokenKind::RParen]
    } else {
        bare(node)
    }
}

/// Whether the tokens of `ts` from `pos` on begin with the kinds `kinds`.
pub open spec fn spelled_at(ts: Seq<Token>, pos: int, kinds: Seq<TokenKind>) -> bool {
    &&& 0 <= pos
    &&& pos + kinds.len() <= ts.len()
    &&& forall|i: int| 0 <= i < kinds.len() ==> ts[pos + i].value == #[trigger] kinds[i]
}

/// Whether no operator of a level tighter than `level` stands at `pos`.
pub open spec fn quiet_above(ts: Seq<Token>, pos: int, level: Level) -> bool {
    0 <= pos < ts.len() ==> match operator_level(ts[pos].value) {
        Some(found) => level_tightness(found) <= level_tightness(level),
        None => true,
    }
}

/// Whether neither an operator nor `=` stands at `pos`.
pub open spec fn quiet(ts: Seq<Token>, pos: int) -> bool {
    0 <= pos < ts.len() ==> operator_level(ts[pos].value) is None && !(ts[pos].value is Assign)
}

proof fn lemma_spelled_at_concat(
    ts: Seq<Token>,
    pos: int,
    front: Seq<TokenKind>,
    back: Seq<TokenKind>,
)
    requires
        spelled_at(ts, pos, front + back),
    ensures
        spelled_at(ts, pos, front),
        spelled_at(ts, pos + front.len(), back),
{
    assert forall|i: int| 0 <= i < front.len() implies ts[pos + i].value == #[trigger] front[i] by {
        assert((front + back)[i] == front[i]);
    }
    assert forall|i: int| 0 <= i < back.len() implies ts[pos + front.len() + i].value
        == #[trigger] back[i] by {
        assert((front + back)[front.len() + i] == back[i]);
    }
}

/// The three parts of what is written for an operator with its operands.
proof fn lemma_spelled_at_parts(
    ts: Seq<Token>,
    pos: int,
    left: Seq<TokenKind>,
    operator: TokenKind,
    right: Seq<TokenKind>,
)
    requires
        spelled_at(ts, pos, left + seq![operator] + right),
    ensures
        spelled_at(ts, pos, left),
        ts[pos + left.len()].value == operator,
        spelled_at(ts, pos + left.len() + 1, right),
{
    lemma_spelled_at_concat(ts, pos, left + seq![operator], right);
    lemma_spelled_at_concat(ts, pos, left, seq![operator]);
    assert(seq![operator][0] == operator);
}

/// A variable in the frame is the variable of its name.
proof fn lemma_name_at(var: LocalVar)
    requires
        var.in_frame(),
    ensures
        LocalVar::is_name(name_at(var.offset)),
        LocalVar::offset_of(name_at(var.offset)) == var.offset,
{
}

/// What was found at a tighter level, and is not carried on there, is what
/// the next looser level begins with.
proof fn lemma_looser(ts: Seq<Token>, level: Level, node: Node, pos: int, end: int)
    requires
        0 <= pos < end,
        match level {
            Level::Equality => binary(ts, Level::Relational, pos) == binary_rest(
                ts,
                Level::Relational,
                node,
                end,
            ) && !holds_operator(ts, end, Level::Relational),
            Level::Relational => binary(ts, Level::Additive, pos) == binary_rest(
                ts,
                Level::Additive,
                node,
                end,
            ) && !holds_operator(ts, end, Level::Additive),
            Level::Additive => binary(ts, Level::Multiplicative, pos) == binary_rest(
                ts,
                Level::Multiplicative,
                node,
                end,
            ) && !holds_operator(ts, end, Level::Multiplicative),
            Level::Multiplicative => unary(ts, pos) == Ok::<(Node, int), Error>((node, end)),
        },
    ensures
        binary(ts, level, pos) == binary_rest(ts, level, node, end),
{
    assert(operand(ts, level, pos) == Ok::<(Node, int), Error>((node, end))) by {
        match level {
            Level::Equality => {
                assert(operand(ts, level, pos) == binary(ts, Level::Relational, pos));
            },
            Level::Relational => {
                assert(operand(ts, level, pos) == binary(ts, Level::Additive, pos));
            },
            Level::Additive => {
                assert(operand(ts, level, pos) == binary(ts, Level::Multiplicative, pos));
            },
            Level::Multiplicative => {
                assert(operand(ts, level, pos) == unary(ts, pos));
            },
        }
    }
}

/// What `primary` found is what every looser rule begins with, and is all
/// that a rule finds that nothing carries on.
proof fn lemma_from_primary(ts: Seq<Token>, node: Node, pos: int, end: int)
    requires
        0 <= pos < end,
        primary(ts, pos) == Ok::<(Node, int), Error>((node, end)),
        !holds(ts, pos, TokenKind::Plus),
        !holds(ts, pos, TokenKind::Minus),
    ensures
        forall|level: Level|
            quiet_above(ts, end, level) ==> #[trigger] binary(ts, level, pos) == binary_rest(
                ts,
                level,
                node,
                end,
            ),
        quiet(ts, end) ==> assignment(ts, pos) == Ok::<(Node, int), Error>((node, end)),
{
    assert(unary(ts, pos) == primary(ts, pos));
    lemma_looser(ts, Level::Multiplicative, node, pos, end);
    lemma_from_level(ts, Level::Multiplicative, node, pos, end);
}

/// What a level found is what every looser level begins with, and is all
/// that a rule finds that nothing carries on.
proof fn lemma_from_level(ts: Seq<Token>, found: Level, node: Node, pos: int, end: int)
    requires
        0 <= pos < end,
        binary(ts, found, pos) == binary_rest(ts, found, node, end),
    ensures
        forall|level: Level|
            level_tightness(level) <= level_tightness(found) && quiet_above(ts, end, level)
                ==> #[trigger] binary(ts, level, pos) == binary_rest(ts, level, node, end),
        quiet(ts, end) ==> assignment(ts, pos) == Ok::<(Node, int), Error>((node, end)),
{
    let t = level_tightness(found);
    if quiet_above(ts, end, Level::Additive) && t >= 4 {
        lemma_looser(ts, Level::Additive, node, pos, end);
    }
    if quiet_above(ts, end, Level::Relational) && t >= 3 {
        if t >= 4 {
            lemma_looser(ts, Level::Additive, node, pos, end);
        }
        lemma_looser(ts, Level::Relational, node, pos, end);
    }
    if quiet_above(ts, end, Level::Equality) && t >= 2 {
        if t >= 4 {
            lemma_looser(ts, Level::Additive, node, pos, end);
        }
        if t >= 3 {
            lemma_looser(ts, Level::Relational, node, pos, end);
        }
        lemma_looser(ts, Level::Equality, node, pos, end);
    }
    assert forall|level: Level|
        level_tightness(level) <= level_tightness(found) && quiet_above(
            ts,
            end,
            level,
        ) implies #[trigger] binary(ts, level, pos) == binary_rest(ts, level, node, end) by {
        match level {
            Level::Equality => {},
            Level::Relational => {},
            Level::Additive => {},
            Level::Multiplicative => {},
        }
    }
    if quiet(ts, end) {
        assert(quiet_above(ts, end, Level::Equality));
        assert(binary(ts, Level::Equality, pos) == binary_rest(ts, Level::Equality, node, end));
    }
}

/// How tightly what is written for `node` holds together, where an
/// operand of the tightness `min` or more is asked for: in parentheses it
/// can stand anywhere.
pub open spec fn printed(node: Node, min: int) -> int {
    if tightness(node.kind) < min {
        5
    } else {
        tightness(node.kind)
    }
}

/// The level of the operators of the kind `kind`.
pub open spec fn kind_level(kind: Kind) -> Level {
    match kind {
        Kind::Eq | Kind::Ne => Level::Equality,
        Kind::Lt | Kind::Le => Level::Relational,
        Kind::Add | Kind::Sub => Level::Additive,
        _ => Level::Multiplicative,
    }
}

/// A number or a variable is spelled by one token, and `primary` finds it.
proof fn lemma_leaf_spelled(node: Node, ts: Seq<Token>, pos: int)
    requires
        node.well_formed(),
        node.kind.is_leaf(),
        spelled_at(ts, pos, bare(node)),
    ensures
        bare(node).len() == 1,
        !holds(ts, pos, TokenKind::Plus),
        !holds(ts, pos, TokenKind::Minus),
        primary(ts, pos) == Ok::<(Node, int), Error>((node, pos + 1)),
{
    assert(ts[pos + 0].value == bare(node)[0]);
    match node.kind {
        Kind::LocalVar(var) => {
            lemma_name_at(var);
            assert(node == Node::leaf(Kind::LocalVar(var)));
        },
        Kind::Number(n) => {
            assert(node == Node::leaf(Kind::Number(n)));
        },
        _ => {},
    }
}

/// `primary` finds the tree that stands in parentheses.
proof fn lemma_parenthesized(node: Node, ts: Seq<Token>, pos: int, end: int)
    requires
        spelled_at(ts, pos, seq![TokenKind::LParen] + bare(node) + seq![TokenKind::RParen]),
        end == pos + bare(node).len() + 2,
        quiet(ts, end - 1) ==> assignment(ts, pos + 1) == Ok::<(Node, int), Error>(
            (node, end - 1),
        ),
    ensures
        !holds(ts, pos, TokenKind::Plus),
        !holds(ts, pos, TokenKind::Minus),
        primary(ts, pos) == Ok::<(Node, int), Error>((node, end)),
{
    lemma_spelled_at_concat(ts, pos, seq![TokenKind::LParen] + bare(node), seq![TokenKind::RParen]);
    lemma_spelled_at_concat(ts, pos, seq![TokenKind::LParen], bare(node));
    assert(seq![TokenKind::LParen][0] == TokenKind::LParen);
    assert(seq![TokenKind::RParen][0] == TokenKind::RParen);
    assert(ts[pos + 0].value == TokenKind::LParen);
    assert(ts[end - 1 + 0].value == TokenKind::RParen);
    assert(expression(ts, pos + 1) == assignment(ts, pos + 1));
}

/// `assignment` finds the assignment whose two sides it finds.
proof fn lemma_assign_spelled(
    lhs: Node,
    rhs: Node,
    ts: Seq<Token>,
    pos: int,
    mid: int,
    end: int,
)
    requires
        0 <= pos < mid,
        holds(ts, mid, TokenKind::Assign),
        binary(ts, Level::Equality, pos) == binary_rest(ts, Level::Equality, lhs, mid),
        quiet(ts, end) ==> assignment(ts, mid + 1) == Ok::<(Node, int), Error>((rhs, end)),
    ensures
        quiet(ts, end) ==> assignment(ts, pos) == Ok::<(Node, int), Error>(
            (Node::binary(Kind::Assign, lhs, rhs), end),
        ),
{
    assert(!holds_operator(ts, mid, Level::Equality));
}

/// An operand is found where the rule of the next tighter level finds it
/// and carries it no further.
proof fn lemma_operand_spelled(
    rhs: Node,
    level: Level,
    ts: Seq<Token>,
    start: int,
    end: int,
)
    requires
        0 <= start < end,
        quiet_above(ts, end, level),
        match level {
            Level::Equality => quiet_above(ts, end, Level::Relational) ==> binary(
                ts,
                Level::Relational,
                start,
            ) == binary_rest(ts, Level::Relational, rhs, end),
            Level::Relational => quiet_above(ts, end, Level::Additive) ==> binary(
                ts,
                Level::Additive,
                start,
            ) == binary_rest(ts, Level::Additive, rhs, end),
            Level::Additive => quiet_above(ts, end, Level::Multiplicative) ==> binary(
                ts,
                Level::Multiplicative,
                start,
            ) == binary_rest(ts, Level::Multiplicative, rhs, end),
            Level::Multiplicative => unary(ts, start) == Ok::<(Node, int), Error>((rhs, end)),
        },
    ensures
        operand(ts, level, start) == Ok::<(Node, int), Error>((rhs, end)),
{
    match level {
        Level::Equality => {
            assert(operand(ts, level, start) == binary(ts, Level::Relational, start));
            assert(quiet_above(ts, end, Level::Relational));
            assert(!holds_operator(ts, end, Level::Relational));
        },
        Level::Relational => {
            assert(operand(ts, level, start) == binary(ts, Level::Additive, start));
            assert(quiet_above(ts, end, Level::Additive));
            assert(!holds_operator(ts, end, Level::Additive));
        },
        Level::Additive => {
            assert(operand(ts, level, start) == binary(ts, Level::Multiplicative, start));
            assert(quiet_above(ts, end, Level::Multiplicative));
            assert(!holds_operator(ts, end, Level::Multiplicative));
        },
        Level::Multiplicative => {
            assert(operand(ts, level, start) == unary(ts, start));
        },
    }
}

/// The rule of a level finds the operator of that level whose left operand
/// it begins with and whose right operand it finds.
proof fn lemma_operator_spelled(
    kind: Kind,
    lhs: Node,
    rhs: Node,
    ts: Seq<Token>,
    pos: int,
    mid: int,
    end: int,
)
    requires
        kind.is_operation(),
        0 <= pos < mid < end,
        mid < ts.len(),
        ts[mid].value == operator_token(kind),
        binary(ts, kind_level(kind), pos) == binary_rest(ts, kind_level(kind), lhs, mid),
        operand(ts, kind_level(kind), mid + 1) == Ok::<(Node, int), Error>((rhs, end)),
    ensures
        binary(ts, kind_level(kind), pos) == binary_rest(
            ts,
            kind_level(kind),
            Node::binary(kind, lhs, rhs),
            end,
        ),
{
    assert(holds_operator(ts, mid, kind_level(kind)));
    assert(apply(operator_token(kind), lhs, rhs) == Node::binary(kind, lhs, rhs));
}

/// What the rules of the grammar make of the tokens from `pos` on, which
/// spell the tree `node` as an operand of the tightness `min` or more.
///
/// `primary` finds the tree where it is spelled as tightly as can be. The
/// rule of each level that is no tighter than the spelling begins with the
/// tree, and so finds it where nothing tighter than the level follows. And
/// `assignment` finds the tree where neither an operator nor `=` follows.
#[verifier::opaque]
spec fn found(node: Node, min: int, ts: Seq<Token>, pos: int) -> bool {
    let end = pos + spelling(node, min).len();
    &&& pos < end
    &&& !holds(ts, pos, TokenKind::Plus)
    &&& !holds(ts, pos, TokenKind::Minus)
    &&& printed(node, min) == 5 ==> primary(ts, pos) == Ok::<(Node, int), Error>((node, end))
    &&& forall|level: Level|
        level_tightness(level) <= printed(node, min) && quiet_above(ts, end, level)
            ==> #[trigger] binary(ts, level, pos) == binary_rest(ts, level, node, end)
    &&& quiet(ts, end) ==> assignment(ts, pos) == Ok::<(Node, int), Error>((node, end))
}

proof fn lemma_found_leaf(node: Node, min: int, ts: Seq<Token>, pos: int)
    requires
        node.well_formed(),
        node.kind.is_leaf(),
        0 <= min <= 5,
        spelled_at(ts, pos, spelling(node, min)),
    ensures
        found(node, min, ts, pos),
{
    reveal(found);
    lemma_leaf_spelled(node, ts, pos);
    lemma_from_primary(ts, node, pos, pos + 1);
}

proof fn lemma_found_parenthesized(node: Node, min: int, ts: Seq<Token>, pos: int)
    requires
        tightness(node.kind) < min,
        spelled_at(ts, pos, spelling(node, min)),
        found(node, 0, ts, pos + 1),
    ensures
        found(node, min, ts, pos),
{
    reveal(found);
    let end = pos + spelling(node, min).len();
    assert(bare(node) == spelling(node, 0));
    lemma_parenthesized(node, ts, pos, end);
    lemma_from_primary(ts, node, pos, end);
}

proof fn lemma_found_assign(lhs: Node, rhs: Node, ts: Seq<Token>, pos: int)
    requires
        spelled_at(ts, pos, spelling(lhs, 1) + seq![TokenKind::Assign] + spelling(rhs, 0)),
        found(lhs, 1, ts, pos),
        found(rhs, 0, ts, pos + spelling(lhs, 1).len() + 1),
    ensures
        found(Node::binary(Kind::Assign, lhs, rhs), 0, ts, pos),
{
    reveal(found);
    let node = Node::binary(Kind::Assign, lhs, rhs);
    let mid = pos + spelling(lhs, 1).len();
    let end = mid + 1 + spelling(rhs, 0).len();
    lemma_spelled_at_parts(ts, pos, spelling(lhs, 1), TokenKind::Assign, spelling(rhs, 0));
    assert(quiet_above(ts, mid, Level::Equality));
    lemma_assign_spelled(lhs, rhs, ts, pos, mid, end);
    assert(spelling(node, 0) == spelling(lhs, 1) + seq![TokenKind::Assign] + spelling(rhs, 0));
}

proof fn lemma_found_operator(
    kind: Kind,
    lhs: Node,
    rhs: Node,
    min: int,
    ts: Seq<Token>,
    pos: int,
)
    requires
        kind.is_operation(),
        min <= tightness(kind),
        spelled_at(
            ts,
            pos,
            spelling(lhs, tightness(kind)) + seq![operator_token(kind)] + spelling(
                rhs,
                tightness(kind) + 1,
            ),
        ),
        found(lhs, tightness(kind), ts, pos),
        found(rhs, tightness(kind) + 1, ts, pos + spelling(lhs, tightness(kind)).len() + 1),
    ensures
        found(Node::binary(kind, lhs, rhs), min, ts, pos),
{
    reveal(found);
    let node = Node::binary(kind, lhs, rhs);
    let level = kind_level(kind);
    let k = tightness(kind);
    let mid = pos + spelling(lhs, k).len();
    let end = mid + 1 + spelling(rhs, k + 1).len();
    lemma_spelled_at_parts(ts, pos, spelling(lhs, k), operator_token(kind), spelling(rhs, k + 1));
    assert(spelling(node, min) == spelling(lhs, k) + seq![operator_token(kind)] + spelling(
        rhs,
        k + 1,
    ));
    assert(quiet_above(ts, mid, level));
    assert(binary(ts, level, pos) == binary_rest(ts, level, lhs, mid));
    if quiet_above(ts, end, level) {
        if level is Multiplicative {
            assert(unary(ts, mid + 1) == primary(ts, mid + 1));
        }
        lemma_operand_spelled(rhs, level, ts, mid + 1, end);
        lemma_operator_spelled(kind, lhs, rhs, ts, pos, mid, end);
        lemma_from_level(ts, level, node, pos, end);
    }
    assert forall|l: Level|
        level_tightness(l) <= printed(node, min) && quiet_above(ts, end, l) implies #[trigger] binary(
        ts,
        l,
        pos,
    ) == binary_rest(ts, l, node, end) by {
        assert(quiet_above(ts, end, level));
    }
}

proof fn lemma_spelled(node: Node, min: int, ts: Seq<Token>, pos: int)
    requires
        node.well_formed(),
        0 <= min <= 5,
        spelled_at(ts, pos, spelling(node, min)),
    ensures
        found(node, min, ts, pos),
    decreases node, min,
{
    if tightness(node.kind) < min {
        lemma_spelled_at_concat(ts, pos, seq![TokenKind::LParen] + bare(node), seq![TokenKind::RParen]);
        lemma_spelled_at_concat(ts, pos, seq![TokenKind::LParen], bare(node));
        lemma_spelled(node, 0, ts, pos + 1);
        lemma_found_parenthesized(node, min, ts, pos);
    } else if node.kind.is_leaf() {
        lemma_found_leaf(node, min, ts, pos);
    } else {
        let lhs = *node.lhs->Some_0;
        let rhs = *node.rhs->Some_0;
        assert(node == Node::binary(node.kind, lhs, rhs));
        let k = if node.kind is Assign {
            1
        } else {
            tightness(node.kind)
        };
        let j = if node.kind is Assign {
            0
        } else {
            tightness(node.kind) + 1
        };
        lemma_spelled_at_parts(
            ts,
            pos,
            spelling(lhs, k),
            operator_token(node.kind),
            spelling(rhs, j),
        );
        lemma_spelled(lhs, k, ts, pos);
        lemma_spelled(rhs, j, ts, pos + spelling(lhs, k).len() + 1);
        if node.kind is Assign {
            lemma_found_assign(lhs, rhs, ts, pos);
        } else {
            lemma_found_operator(node.kind, lhs, rhs, min, ts, pos);
        }
    }
}

/// The tokens that spell the statements `nodes`: each statement, spelled
/// without parentheses around the whole, and `;` behind it.
pub open spec fn spelling_all(nodes: Seq<Node>) -> Seq<TokenKind>
    decreases nodes.len(),
{
    if nodes.len() == 0 {
        Seq::empty()
    } else {
        spelling(nodes[0], 0) + seq![TokenKind::SemiColon] + spelling_all(nodes.drop_first())
    }
}

proof fn lemma_statements_spelled(nodes: Seq<Node>, ts: Seq<Token>, pos: int)
    requires
        forall|i: int| 0 <= i < nodes.len() ==> (#[trigger] nodes[i]).well_formed(),
        spelled_at(ts, pos, spelling_all(nodes)),
        at_end(ts, pos + spelling_all(nodes).len()),
    ensures
        statements(ts, pos) == Ok::<Seq<Node>, Error>(nodes),
    decreases nodes.len(),
{
    if nodes.len() == 0 {
        assert(nodes =~= Seq::<Node>::empty());
    } else {
        let first = spelling(nodes[0], 0);
        let rest = nodes.drop_first();
        let end = pos + first.len();
        lemma_spelled_at_parts(ts, pos, first, TokenKind::SemiColon, spelling_all(rest));
        lemma_spelled(nodes[0], 0, ts, pos);
        reveal(found);
        assert(expression(ts, pos) == assignment(ts, pos));
        assert(statement(ts, pos) == Ok::<(Node, int), Error>((nodes[0], end + 1)));
        assert forall|i: int| 0 <= i < rest.len() implies (#[trigger] rest[i]).well_formed() by {
            assert(rest[i] == nodes[i + 1]);
        }
        lemma_statements_spelled(rest, ts, end + 1);
        assert(seq![nodes[0]] + rest =~= nodes);
    }
}

/// The parser reads trees back from their spelling.
///
/// The tokens that spell well-formed trees as statements, with the end
/// marker or nothing behind them, are parsed as those trees. So the parser
/// takes the operands of every operator as the spelling gives them, by the
/// tightness of the operators and from the left, and every well-formed
/// tree is the tree of some tokens.
pub proof fn lemma_spelling_parsed(nodes: Seq<Node>, ts: Seq<Token>)
    requires
        forall|i: int| 0 <= i < nodes.len() ==> (#[trigger] nodes[i]).well_formed(),
        spelled_at(ts, 0, spelling_all(nodes)),
        at_end(ts, spelling_all(nodes).len() as int),
    ensures
        program(ts) == Ok::<Seq<Node>, Error>(nodes),
{
    lemma_statements_spelled(nodes, ts, 0);
}

/// The one statement that the tokens `ts` are, where they are an
/// expression that `assignment` finds, and `;`.
proof fn lemma_statement_spelled(node: Node, ts: Seq<Token>, end: int)
    requires
        0 < end,
        end + 1 == ts.len(),
        ts[end].value == TokenKind::SemiColon,
        assignment(ts, 0) == Ok::<(Node, int), Error>((node, end)),
    ensures
        program(ts) == Ok::<Seq<Node>, Error>(seq![node]),
{
    assert(expression(ts, 0) == assignment(ts, 0));
    assert(statement(ts, 0) == Ok::<(Node, int), Error>((node, end + 1)));
    assert(statements(ts, end + 1) == Ok::<Seq<Node>, Error>(Seq::empty()));
    assert(seq![node] + Seq::<Node>::empty() =~= seq![node]);
}

/// A sign before an operand: `+x;` is `x`, and `-x;` is the tree of
/// `0 - x`, whatever the operand `x`.
pub proof fn lemma_sign_parsed(x: Node, minus: bool, ts: Seq<Token>)
    requires
        x.well_formed(),
        spelled_at(
            ts,
            0,
            seq![
                if minus {
                    TokenKind::Minus
                } else {
                    TokenKind::Plus
                },
            ] + spelling(x, 5) + seq![TokenKind::SemiColon],
        ),
        ts.len() == spelling(x, 5).len() + 2,
    ensures
        program(ts) == Ok::<Seq<Node>, Error>(
            seq![
                if minus {
                    Node::binary(Kind::Sub, Node::leaf(Kind::Number(0)), x)
                } else {
                    x
                },
            ],
        ),
{
    let sign = if minus {
        TokenKind::Minus
    } else {
        TokenKind::Plus
    };
    let node = if minus {
        Node::binary(Kind::Sub, Node::leaf(Kind::Number(0)), x)
    } else {
        x
    };
    let end: int = 1 + spelling(x, 5).len() as int;
    lemma_spelled_at_concat(ts, 0, seq![sign] + spelling(x, 5), seq![TokenKind::SemiColon]);
    lemma_spelled_at_concat(ts, 0, seq![sign], spelling(x, 5));
    assert(seq![sign][0] == sign);
    assert(seq![TokenKind::SemiColon][0] == TokenKind::SemiColon);
    assert(ts[0int + 0].value == sign);
    assert(ts[end + 0].value == TokenKind::SemiColon);
    lemma_spelled(x, 5, ts, 1);
    reveal(found);
    assert(unary(ts, 0) == Ok::<(Node, int), Error>((node, end)));
    lemma_looser(ts, Level::Multiplicative, node, 0, end);
    lemma_from_level(ts, Level::Multiplicative, node, 0, end);
    lemma_statement_spelled(node, ts, end);
}

/// The tree has no kind for "greater": `l > r;` is the tree of `r < l`,
/// and `l >= r;` is the tree of `r <= l`, whatever the operands `l` and `r`.
pub proof fn lemma_greater_parsed(l: Node, r: Node, strict: bool, ts: Seq<Token>)
    requires
        l.well_formed(),
        r.well_formed(),
        spelled_at(
            ts,
            0,
            spelling(l, 3) + seq![
                if strict {
                    TokenKind::Gt
                } else {
                    TokenKind::Ge
                },
            ] + spelling(r, 3) + seq![TokenKind::SemiColon],
        ),
        ts.len() == spelling(l, 3).len() + spelling(r, 3).len() + 2,
    ensures
        program(ts) == Ok::<Seq<Node>, Error>(
            seq![
                Node::binary(
                    if strict {
                        Kind::Lt
                    } else {
                        Kind::Le
                    },
                    r,
                    l,
                ),
            ],
        ),
{
    let operator = if strict {
        TokenKind::Gt
    } else {
        TokenKind::Ge
    };
    let node = Node::binary(
        if strict {
            Kind::Lt
        } else {
            Kind::Le
        },
        r,
        l,
    );
    let mid: int = spelling(l, 3).len() as int;
    let end: int = mid + 1 + spelling(r, 3).len();
    lemma_spelled_at_concat(
        ts,
        0,
        spelling(l, 3) + seq![operator] + spelling(r, 3),
        seq![TokenKind::SemiColon],
    );
    lemma_spelled_at_parts(ts, 0, spelling(l, 3), operator, spelling(r, 3));
    assert(seq![TokenKind::SemiColon][0] == TokenKind::SemiColon);
    assert(ts[end + 0].value == TokenKind::SemiColon);
    lemma_spelled(l, 3, ts, 0);
    lemma_spelled(r, 3, ts, mid + 1);
    reveal(found);
    assert(quiet_above(ts, mid, Level::Relational));
    assert(binary(ts, Level::Relational, 0) == binary_rest(ts, Level::Relational, l, mid));
    assert(quiet_above(ts, end, Level::Additive));
    assert(binary(ts, Level::Additive, mid + 1) == binary_rest(ts, Level::Additive, r, end));
    assert(operand(ts, Level::Relational, mid + 1) == binary(ts, Level::Additive, mid + 1));
    assert(holds_operator(ts, mid, Level::Relational));
    assert(apply(operator, l, r) == node);
    assert(binary_rest(ts, Level::Relational, l, mid) == binary_rest(
        ts,
        Level::Relational,
        node,
        end,
    ));
    lemma_from_level(ts, Level::Relational, node, 0, end);
    lemma_statement_spelled(node, ts, end);
}

/// `l > r;` and `r < l;` are the same tree, and so are `l >= r;` and
/// `r <= l;`, whatever the operands `l` and `r`.
pub proof fn lemma_greater_as_less(
    l: Node,
    r: Node,
    strict: bool,
    greater: Seq<Token>,
    less: Seq<Token>,
)
    requires
        l.well_formed(),
        r.well_formed(),
        spelled_at(
            greater,
            0,
            spelling(l, 3) + seq![
                if strict {
                    TokenKind::Gt
                } else {
                    TokenKind::Ge
                },
            ] + spelling(r, 3) + seq![TokenKind::SemiColon],
        ),
        greater.len() == spelling(l, 3).len() + spelling(r, 3).len() + 2,
        spelled_at(
            less,
            0,
            spelling(r, 2) + seq![
                if strict {
                    TokenKind::Lt
                } else {
                    TokenKind::Le
                },
            ] + spelling(l, 3) + seq![TokenKind::SemiColon],
        ),
        less.len() == spelling(r, 2).len() + spelling(l, 3).len() + 2,
    ensures
        program(greater) == program(less),
{
    let node = Node::binary(
        if strict {
            Kind::Lt
        } else {
            Kind::Le
        },
        r,
        l,
    );
    lemma_greater_parsed(l, r, strict, greater);
    let nodes = seq![node];
    assert(nodes.drop_first() =~= Seq::<Node>::empty());
    assert(spelling_all(nodes.drop_first()) =~= Seq::<TokenKind>::empty());
    assert(spelling_all(nodes) =~= spelling(node, 0) + seq![TokenKind::SemiColon]);
    assert(node.well_formed());
    lemma_spelling_parsed(nodes, less);
}

} // verus!
