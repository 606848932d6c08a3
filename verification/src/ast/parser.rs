use crate::ast::node::{Kind, LocalVar, Node, Program};
use crate::lex::token::{Ident, Stream, Token, TokenKind};
use vstd::prelude::*;

verus! {

/// Why the parser gave up.
#[derive(Debug, Clone, Copy, PartialEq, Eq)]
pub enum Error {
    /// The token that stands where the grammar asks for another.
    UnexpectedToken(Token),
    /// The tokens ended where the grammar asks for more.
    Eof,
}

/// The levels of the left-associative binary operators, from the one that
/// binds loosest to the one that binds tightest.
pub enum Level {
    /// `==` and `!=`
    Equality,
    /// `<`, `<=`, `>` and `>=`
    Relational,
    /// `+` and `-`
    Additive,
    /// `*` and `/`
    Multiplicative,
}

/// What a rule of the grammar makes of the tokens from some position on:
/// a tree and the position behind its last token, or a failure.
pub type Parsed = Result<(Node, int), Error>;

/// The level of the binary operator that the token `kind` stands for.
pub open spec fn operator_level(kind: TokenKind) -> Option<Level> {
    match kind {
        TokenKind::Eq | TokenKind::Ne => Some(Level::Equality),
        TokenKind::Lt | TokenKind::Le | TokenKind::Gt | TokenKind::Ge => Some(Level::Relational),
        TokenKind::Plus | TokenKind::Minus => Some(Level::Additive),
        TokenKind::Asterisk | TokenKind::Slash => Some(Level::Multiplicative),
        _ => None,
    }
}

/// The tree of the binary operator `operator` between the operands `lhs`
/// and `rhs`. The tree has no kind for "greater": `l > r` is the tree of
/// `r < l`, and `l >= r` that of `r <= l`.
pub open spec fn apply(operator: TokenKind, lhs: Node, rhs: Node) -> Node {
    match operator {
        TokenKind::Eq => Node::binary(Kind::Eq, lhs, rhs),
        TokenKind::Ne => Node::binary(Kind::Ne, lhs, rhs),
        TokenKind::Lt => Node::binary(Kind::Lt, lhs, rhs),
        TokenKind::Le => Node::binary(Kind::Le, lhs, rhs),
        TokenKind::Gt => Node::binary(Kind::Lt, rhs, lhs),
        TokenKind::Ge => Node::binary(Kind::Le, rhs, lhs),
        TokenKind::Plus => Node::binary(Kind::Add, lhs, rhs),
        TokenKind::Minus => Node::binary(Kind::Sub, lhs, rhs),
        TokenKind::Asterisk => Node::binary(Kind::Mul, lhs, rhs),
        _ => Node::binary(Kind::Div, lhs, rhs),
    }
}

/// Whether the token at `pos` answers a request for `kind`.
pub open spec fn holds(ts: Seq<Token>, pos: int, kind: TokenKind) -> bool {
    0 <= pos < ts.len() && ts[pos].value.matches_kind(kind)
}

/// Whether the token at `pos` is an operator of the level `level`.
pub open spec fn holds_operator(ts: Seq<Token>, pos: int, level: Level) -> bool {
    0 <= pos < ts.len() && operator_level(ts[pos].value) == Some(level)
}

/// Whether the statements end at `pos`: with the end marker, or with the
/// tokens themselves.
pub open spec fn at_end(ts: Seq<Token>, pos: int) -> bool {
    pos < 0 || pos >= ts.len() || ts[pos].value is Eof
}

/// The failure of a rule that finds at `pos` no token that it can take.
pub open spec fn missing(ts: Seq<Token>, pos: int) -> Error {
    if at_end(ts, pos) {
        Error::Eof
    } else {
        Error::UnexpectedToken(ts[pos])
    }
}

/// The number of positions from `pos` to the end of the tokens.
pub open spec fn remaining(ts: Seq<Token>, pos: int) -> nat {
    if pos <= ts.len() {
        (ts.len() - pos) as nat
    } else {
        0
    }
}

/// The place of the level `level` among the rules, counted from the
/// tightest: a rule asks only rules of a lower place about the same tokens,
/// so the rules are well founded.
pub open spec fn level_rank(level: Level) -> int {
    match level {
        Level::Equality => 4,
        Level::Relational => 3,
        Level::Additive => 2,
        Level::Multiplicative => 1,
    }
}

/// `primary := NUMBER | IDENT | "(" expression ")"`
///
/// An identifier is a variable only if its name is one of `a` to `z`.
pub open spec fn primary(ts: Seq<Token>, pos: int) -> Parsed
    decreases remaining(ts, pos), 1int,
{
    if holds(ts, pos, TokenKind::LParen) {
        match expression(ts, pos + 1) {
            Ok((node, next)) => if holds(ts, next, TokenKind::RParen) {
                Ok((node, next + 1))
            } else {
                Err(missing(ts, next))
            },
            Err(e) => Err(e),
        }
    } else if at_end(ts, pos) {
        Err(Error::Eof)
    } else {
        match ts[pos].value {
            TokenKind::Number(n) => Ok((Node::leaf(Kind::Number(n)), pos + 1)),
            TokenKind::Ident(ident) if LocalVar::is_name(ident.name) => Ok(
                (
                    Node::leaf(
                        Kind::LocalVar(LocalVar { offset: LocalVar::offset_of(ident.name) as u64 }),
                    ),
                    pos + 1,
                ),
            ),
            _ => Err(Error::UnexpectedToken(ts[pos])),
        }
    }
}

/// `unary := ("+" | "-")? primary`
///
/// `+x` is `x`, and `-x` is the tree of `0 - x`.
pub open spec fn unary(ts: Seq<Token>, pos: int) -> Parsed
    decreases remaining(ts, pos), 2int,
{
    if holds(ts, pos, TokenKind::Plus) {
        primary(ts, pos + 1)
    } else if holds(ts, pos, TokenKind::Minus) {
        match primary(ts, pos + 1) {
            Ok((node, next)) => Ok(
                (Node::binary(Kind::Sub, Node::leaf(Kind::Number(0)), node), next),
            ),
            Err(e) => Err(e),
        }
    } else {
        primary(ts, pos)
    }
}

/// An operand of an operator of the level `level`: an expression of the
/// next tighter level.
pub open spec fn operand(ts: Seq<Token>, level: Level, pos: int) -> Parsed
    decreases remaining(ts, pos), 3 * level_rank(level),
{
    match level {
        Level::Equality => binary(ts, Level::Relational, pos),
        Level::Relational => binary(ts, Level::Additive, pos),
        Level::Additive => binary(ts, Level::Multiplicative, pos),
        Level::Multiplicative => unary(ts, pos),
    }
}

/// What follows the operands that make up `lhs`, at the level `level`:
/// `(operator operand)*`. Each operator takes all that stands before it as
/// its left operand.
///
/// Every operand takes at least one token, so the branch that asks whether
/// this one did is never the one that fails: it is there for the recursion
/// to be well founded. `lemma_rules_unguarded` states the rule without it.
pub open spec fn binary_rest(ts: Seq<Token>, level: Level, lhs: Node, pos: int) -> Parsed
    decreases remaining(ts, pos), 3 * level_rank(level) + 1,
{
    if holds_operator(ts, pos, level) {
        match operand(ts, level, pos + 1) {
            Ok((rhs, next)) => if next > pos {
                binary_rest(ts, level, apply(ts[pos].value, lhs, rhs), next)
            } else {
                Err(Error::Eof)
            },
            Err(e) => Err(e),
        }
    } else {
        Ok((lhs, pos))
    }
}

/// `operand (operator operand)*` for the operators of the level `level`:
///
/// ```text
/// equality       := relational (("==" | "!=") relational)*
/// relational     := additive (("<" | "<=" | ">" | ">=") additive)*
/// additive       := multiplicative (("+" | "-") multiplicative)*
/// multiplicative := unary (("*" | "/") unary)*
/// ```
pub open spec fn binary(ts: Seq<Token>, level: Level, pos: int) -> Parsed
    decreases remaining(ts, pos), 3 * level_rank(level) + 2,
{
    match operand(ts, level, pos) {
        Ok((lhs, next)) => if next > pos {
            binary_rest(ts, level, lhs, next)
        } else {
            Err(Error::Eof)
        },
        Err(e) => Err(e),
    }
}

/// `assignment := equality ("=" assignment)?`
///
/// Assignment associates to the right: `a = b = c` is `a = (b = c)`.
pub open spec fn assignment(ts: Seq<Token>, pos: int) -> Parsed
    decreases remaining(ts, pos), 15int,
{
    match binary(ts, Level::Equality, pos) {
        Ok((lhs, next)) => if next > pos && holds(ts, next, TokenKind::Assign) {
            match assignment(ts, next + 1) {
                Ok((rhs, end)) => Ok((Node::binary(Kind::Assign, lhs, rhs), end)),
                Err(e) => Err(e),
            }
        } else {
            Ok((lhs, next))
        },
        Err(e) => Err(e),
    }
}

/// `expression := assignment`
pub open spec fn expression(ts: Seq<Token>, pos: int) -> Parsed
    decreases remaining(ts, pos), 16int,
{
    assignment(ts, pos)
}

/// `statement := expression ";"`
pub open spec fn statement(ts: Seq<Token>, pos: int) -> Parsed {
    match expression(ts, pos) {
        Ok((node, next)) => if holds(ts, next, TokenKind::SemiColon) {
            Ok((node, next + 1))
        } else {
            Err(missing(ts, next))
        },
        Err(e) => Err(e),
    }
}

/// `statement*`, up to the end marker or the end of the tokens.
pub open spec fn statements(ts: Seq<Token>, pos: int) -> Result<Seq<Node>, Error>
    decreases remaining(ts, pos),
{
    if at_end(ts, pos) {
        Ok(Seq::empty())
    } else {
        match statement(ts, pos) {
            Ok((node, next)) => if next > pos {
                match statements(ts, next) {
                    Ok(rest) => Ok(seq![node] + rest),
                    Err(e) => Err(e),
                }
            } else {
                Err(Error::Eof)
            },
            Err(e) => Err(e),
        }
    }
}

/// `program := statement*`: what the parser makes of the tokens `ts`.
pub open spec fn program(ts: Seq<Token>) -> Result<Seq<Node>, Error> {
    statements(ts, 0)
}

/// The operands of each level, rule by rule.
proof fn lemma_operand(ts: Seq<Token>, pos: int)
    ensures
        operand(ts, Level::Equality, pos) == binary(ts, Level::Relational, pos),
        operand(ts, Level::Relational, pos) == binary(ts, Level::Additive, pos),
        operand(ts, Level::Additive, pos) == binary(ts, Level::Multiplicative, pos),
        operand(ts, Level::Multiplicative, pos) == unary(ts, pos),
{
}

/// A cursor over the tokens, with one method for each rule of the grammar.
pub struct Parser {
    tokens: Stream,
    pos: usize,
}

impl Parser {
    /// The tokens that the parser reads.
    pub closed spec fn tokens(&self) -> Seq<Token> {
        self.tokens@
    }

    /// The position of the next token.
    pub closed spec fn pos(&self) -> int {
        self.pos as int
    }

    /// Whether the cursor stands among the tokens or at their end.
    pub open spec fn wf(&self) -> bool {
        0 <= self.pos() <= self.tokens().len() <= usize::MAX
    }

    /// What a method for a rule does, where `grammar` is what the rule makes
    /// of the tokens from the cursor on: it returns the tree and stops behind
    /// it, or returns the failure.
    pub open spec fn follows(
        before: Parser,
        after: Parser,
        r: Result<Node, Error>,
        grammar: Parsed,
    ) -> bool {
        &&& after.tokens() == before.tokens()
        &&& after.wf()
        &&& match grammar {
            Ok((node, next)) => r == Ok::<Node, Error>(node) && after.pos() == next && next
                > before.pos(),
            Err(e) => r == Err::<Node, Error>(e),
        }
    }

    /// A parser at the first of the tokens `tokens`.
    pub fn new(tokens: Stream) -> (parser: Self)
        ensures
            parser.wf(),
            parser.tokens() == tokens@,
            parser.pos() == 0,
    {
        let _ = tokens.len();
        Self { tokens, pos: 0 }
    }

    fn peek(&self) -> (r: Option<Token>)
        requires
            self.wf(),
        ensures
            r == if self.pos() < self.tokens().len() {
                Some(self.tokens()[self.pos()])
            } else {
                None
            },
    {
        if self.pos < self.tokens.len() {
            Some(self.tokens[self.pos])
        } else {
            None
        }
    }

    /// The failure of a rule that can take no token at the cursor.
    fn unexpected(&self) -> (e: Error)
        requires
            self.wf(),
        ensures
            e == missing(self.tokens(), self.pos()),
    {
        match self.peek() {
            None => Error::Eof,
            Some(token) => match token.value {
                TokenKind::Eof => Error::Eof,
                _ => Error::UnexpectedToken(token),
            },
        }
    }

    /// Steps over the next token if it answers a request for `kind`, and
    /// says whether it did.
    fn consume(&mut self, kind: TokenKind) -> (taken: bool)
        requires
            old(self).wf(),
        ensures
            final(self).wf(),
            final(self).tokens() == old(self).tokens(),
            taken == holds(old(self).tokens(), old(self).pos(), kind),
            final(self).pos() == if taken {
                old(self).pos() + 1
            } else {
                old(self).pos()
            },
    {
        match self.peek() {
            None => false,
            Some(token) => {
                if token.is_kind(kind) {
                    self.pos = self.pos + 1;
                    true
                } else {
                    false
                }
            },
        }
    }

    /// Steps over the next token, which must answer a request for `kind`.
    fn expect(&mut self, kind: TokenKind) -> (r: Result<(), Error>)
        requires
            old(self).wf(),
        ensures
            final(self).wf(),
            final(self).tokens() == old(self).tokens(),
            r == if holds(old(self).tokens(), old(self).pos(), kind) {
                Ok::<(), Error>(())
            } else {
                Err::<(), Error>(missing(old(self).tokens(), old(self).pos()))
            },
            final(self).pos() == if r is Ok {
                old(self).pos() + 1
            } else {
                old(self).pos()
            },
    {
        if self.consume(kind) {
            Ok(())
        } else {
            Err(self.unexpected())
        }
    }

    /// Steps over the next token, which must be a number, and returns the
    /// number.
    fn expect_number(&mut self) -> (r: Result<u64, Error>)
        requires
            old(self).wf(),
        ensures
            final(self).wf(),
            final(self).tokens() == old(self).tokens(),
            r == if !at_end(old(self).tokens(), old(self).pos()) && old(self).tokens()[old(
                self,
            ).pos()].value is Number {
                Ok::<u64, Error>(old(self).tokens()[old(self).pos()].value->Number_0)
            } else {
                Err::<u64, Error>(missing(old(self).tokens(), old(self).pos()))
            },
            final(self).pos() == if r is Ok {
                old(self).pos() + 1
            } else {
                old(self).pos()
            },
    {
        match self.peek() {
            Some(Token { value: TokenKind::Number(n), .. }) => {
                self.pos = self.pos + 1;
                Ok(n)
            },
            _ => Err(self.unexpected()),
        }
    }

    /// Steps over the next token, which must be an identifier, and returns
    /// the identifier.
    fn expect_ident(&mut self) -> (r: Result<Ident, Error>)
        requires
            old(self).wf(),
        ensures
            final(self).wf(),
            final(self).tokens() == old(self).tokens(),
            r == if !at_end(old(self).tokens(), old(self).pos()) && old(self).tokens()[old(
                self,
            ).pos()].value is Ident {
                Ok::<Ident, Error>(old(self).tokens()[old(self).pos()].value->Ident_0)
            } else {
                Err::<Ident, Error>(missing(old(self).tokens(), old(self).pos()))
            },
            final(self).pos() == if r is Ok {
                old(self).pos() + 1
            } else {
                old(self).pos()
            },
    {
        match self.peek() {
            Some(Token { value: TokenKind::Ident(ident), .. }) => {
                self.pos = self.pos + 1;
                Ok(ident)
            },
            _ => Err(self.unexpected()),
        }
    }

    fn is_ident(&self) -> (b: bool)
        requires
            self.wf(),
        ensures
            b == (self.pos() < self.tokens().len() && self.tokens()[self.pos()].value is Ident),
    {
        match self.peek() {
            None => false,
            Some(token) => token.is_ident(),
        }
    }

    fn is_eof(&self) -> (b: bool)
        requires
            self.wf(),
        ensures
            b == at_end(self.tokens(), self.pos()),
    {
        match self.peek() {
            None => true,
            Some(token) => token.is_kind(TokenKind::Eof),
        }
    }

    /// `primary := NUMBER | IDENT | "(" expression ")"`
    fn primary(&mut self) -> (r: Result<Node, Error>)
        requires
            old(self).wf(),
        ensures
            Self::follows(*old(self), *final(self), r, primary(old(self).tokens(), old(self).pos())),
        decreases remaining(old(self).tokens(), old(self).pos()), 1int,
    {
        if self.consume(TokenKind::LParen) {
            let node = self.expr()?;
            self.expect(TokenKind::RParen)?;
            Ok(node)
        } else if self.is_ident() {
            let unexpected = self.unexpected();
            let ident = self.expect_ident()?;
            if 'a' <= ident.name && ident.name <= 'z' {
                Ok(Node::local_var(LocalVar::of(ident.name).offset))
            } else {
                Err(unexpected)
            }
        } else {
            Ok(Node::number(self.expect_number()?))
        }
    }

    /// `unary := ("+" | "-")? primary`
    fn unary(&mut self) -> (r: Result<Node, Error>)
        requires
            old(self).wf(),
        ensures
            Self::follows(*old(self), *final(self), r, unary(old(self).tokens(), old(self).pos())),
        decreases remaining(old(self).tokens(), old(self).pos()), 2int,
    {
        if self.consume(TokenKind::Plus) {
            self.primary()
        } else if self.consume(TokenKind::Minus) {
            Ok(Node::with(Kind::Sub, Node::number(0), self.primary()?))
        } else {
            self.primary()
        }
    }

    /// `multiplicative := unary (("*" | "/") unary)*`
    fn mul(&mut self) -> (r: Result<Node, Error>)
        requires
            old(self).wf(),
        ensures
            Self::follows(
                *old(self),
                *final(self),
                r,
                binary(old(self).tokens(), Level::Multiplicative, old(self).pos()),
            ),
        decreases remaining(old(self).tokens(), old(self).pos()), 5int,
    {
        let mut node = self.unary()?;
        loop
            invariant
                self.wf(),
                self.tokens() == old(self).tokens(),
                self.pos() > old(self).pos(),
                binary(old(self).tokens(), Level::Multiplicative, old(self).pos()) == binary_rest(
                    self.tokens(),
                    Level::Multiplicative,
                    node,
                    self.pos(),
                ),
            decreases remaining(self.tokens(), self.pos()),
        {
            proof {
                lemma_operand(self.tokens(), self.pos() + 1);
            }
            if self.consume(TokenKind::Asterisk) {
                node = Node::with(Kind::Mul, node, self.unary()?);
            } else if self.consume(TokenKind::Slash) {
                node = Node::with(Kind::Div, node, self.unary()?);
            } else {
                return Ok(node);
            }
        }
    }

    /// `additive := multiplicative (("+" | "-") multiplicative)*`
    fn add(&mut self) -> (r: Result<Node, Error>)
        requires
            old(self).wf(),
        ensures
            Self::follows(
                *old(self),
                *final(self),
                r,
                binary(old(self).tokens(), Level::Additive, old(self).pos()),
            ),
        decreases remaining(old(self).tokens(), old(self).pos()), 8int,
    {
        let mut node = self.mul()?;
        loop
            invariant
                self.wf(),
                self.tokens() == old(self).tokens(),
                self.pos() > old(self).pos(),
                binary(old(self).tokens(), Level::Additive, old(self).pos()) == binary_rest(
                    self.tokens(),
                    Level::Additive,
                    node,
                    self.pos(),
                ),
            decreases remaining(self.tokens(), self.pos()),
        {
            proof {
                lemma_operand(self.tokens(), self.pos() + 1);
            }
            if self.consume(TokenKind::Plus) {
                node = Node::with(Kind::Add, node, self.mul()?);
            } else if self.consume(TokenKind::Minus) {
                node = Node::with(Kind::Sub, node, self.mul()?);
            } else {
                return Ok(node);
            }
        }
    }

    /// `relational := additive (("<" | "<=" | ">" | ">=") additive)*`
    fn relational(&mut self) -> (r: Result<Node, Error>)
        requires
            old(self).wf(),
        ensures
            Self::follows(
                *old(self),
                *final(self),
                r,
                binary(old(self).tokens(), Level::Relational, old(self).pos()),
            ),
        decreases remaining(old(self).tokens(), old(self).pos()), 11int,
    {
        let mut node = self.add()?;
        loop
            invariant
                self.wf(),
                self.tokens() == old(self).tokens(),
                self.pos() > old(self).pos(),
                binary(old(self).tokens(), Level::Relational, old(self).pos()) == binary_rest(
                    self.tokens(),
                    Level::Relational,
                    node,
                    self.pos(),
                ),
            decreases remaining(self.tokens(), self.pos()),
        {
            proof {
                lemma_operand(self.tokens(), self.pos() + 1);
            }
            if self.consume(TokenKind::Lt) {
                node = Node::with(Kind::Lt, node, self.add()?);
            } else if self.consume(TokenKind::Le) {
                node = Node::with(Kind::Le, node, self.add()?);
            } else if self.consume(TokenKind::Gt) {
                node = Node::with(Kind::Lt, self.add()?, node);
            } else if self.consume(TokenKind::Ge) {
                node = Node::with(Kind::Le, self.add()?, node);
            } else {
                return Ok(node);
            }
        }
    }

    /// `equality := relational (("==" | "!=") relational)*`
    fn equality(&mut self) -> (r: Result<Node, Error>)
        requires
            old(self).wf(),
        ensures
            Self::follows(
                *old(self),
                *final(self),
                r,
                binary(old(self).tokens(), Level::Equality, old(self).pos()),
            ),
        decreases remaining(old(self).tokens(), old(self).pos()), 14int,
    {
        let mut node = self.relational()?;
        loop
            invariant
                self.wf(),
                self.tokens() == old(self).tokens(),
                self.pos() > old(self).pos(),
                binary(old(self).tokens(), Level::Equality, old(self).pos()) == binary_rest(
                    self.tokens(),
                    Level::Equality,
                    node,
                    self.pos(),
                ),
            decreases remaining(self.tokens(), self.pos()),
        {
            proof {
                lemma_operand(self.tokens(), self.pos() + 1);
            }
            if self.consume(TokenKind::Eq) {
                node = Node::with(Kind::Eq, node, self.relational()?);
            } else if self.consume(TokenKind::Ne) {
                node = Node::with(Kind::Ne, node, self.relational()?);
            } else {
                return Ok(node);
            }
        }
    }

    /// `assignment := equality ("=" assignment)?`
    fn assign(&mut self) -> (r: Result<Node, Error>)
        requires
            old(self).wf(),
        ensures
            Self::follows(
                *old(self),
                *final(self),
                r,
                assignment(old(self).tokens(), old(self).pos()),
            ),
        decreases remaining(old(self).tokens(), old(self).pos()), 15int,
    {
        let node = self.equality()?;
        if self.consume(TokenKind::Assign) {
            Ok(Node::with(Kind::Assign, node, self.assign()?))
        } else {
            Ok(node)
        }
    }

    /// `expression := assignment`
    pub fn expr(&mut self) -> (r: Result<Node, Error>)
        requires
            old(self).wf(),
        ensures
            Self::follows(
                *old(self),
                *final(self),
                r,
                expression(old(self).tokens(), old(self).pos()),
            ),
        decreases remaining(old(self).tokens(), old(self).pos()), 16int,
    {
        self.assign()
    }

    /// `statement := expression ";"`
    pub fn stmt(&mut self) -> (r: Result<Node, Error>)
        requires
            old(self).wf(),
        ensures
            Self::follows(
                *old(self),
                *final(self),
                r,
                statement(old(self).tokens(), old(self).pos()),
            ),
    {
        let node = self.expr()?;
        self.expect(TokenKind::SemiColon)?;
        Ok(node)
    }

    /// `program := statement*`, from the cursor on.
    pub fn program(&mut self) -> (r: Result<Program, Error>)
        requires
            old(self).wf(),
        ensures
            final(self).wf(),
            final(self).tokens() == old(self).tokens(),
            match r {
                Ok(nodes) => statements(old(self).tokens(), old(self).pos()) == Ok::<
                    Seq<Node>,
                    Error,
                >(nodes@),
                Err(e) => statements(old(self).tokens(), old(self).pos()) == Err::<
                    Seq<Node>,
                    Error,
                >(e),
            },
    {
        let mut program = Program::new();
        while !self.is_eof()
            invariant
                self.wf(),
                self.tokens() == old(self).tokens(),
                match statements(self.tokens(), self.pos()) {
                    Ok(rest) => statements(old(self).tokens(), old(self).pos()) == Ok::<
                        Seq<Node>,
                        Error,
                    >(program@ + rest),
                    Err(e) => statements(old(self).tokens(), old(self).pos()) == Err::<
                        Seq<Node>,
                        Error,
                    >(e),
                },
            decreases remaining(self.tokens(), self.pos()),
        {
            let ghost before = program@;
            let node = self.stmt()?;
            program.push(node);
            proof {
                if let Ok(after) = statements(self.tokens(), self.pos()) {
                    assert(before + (seq![node] + after) =~= program@ + after);
                }
            }
        }
        proof {
            assert(program@ + Seq::<Node>::empty() =~= program@);
        }
        Ok(program)
    }
}

/// Builds the statement trees of a token stream.
///
/// The trees follow the grammar: see [`program`]. The first token that the
/// grammar cannot take stops the parser: it is returned as the failure, or
/// the end of the tokens is, where it is they that end too early.
pub fn parse(stream: Stream) -> (r: Result<Program, crate::error::Error>)
    ensures
        match r {
            Ok(nodes) => program(stream@) == Ok::<Seq<Node>, Error>(nodes@),
            Err(e) => e matches crate::error::Error::Parser(cause) && program(stream@) == Err::<
                Seq<Node>,
                Error,
            >(cause),
        },
{
    match Parser::new(stream).program() {
        Ok(nodes) => Ok(nodes),
        Err(e) => Err(crate::error::Error::from(e)),
    }
}

} // verus!
