use crate::lex::token::{Error, ErrorKind, Ident, Loc, Stream, Token, TokenKind};
use vstd::prelude::*;
use vstd::string::StringSliceAdditionalSpecFns;

verus! {

/// Whether the byte `b` is one of the digits `0` to `9`.
pub open spec fn is_digit(b: u8) -> bool {
    '0' <= b as char <= '9'
}

/// Whether the byte `b` is one of the letters `a` to `z`.
pub open spec fn is_letter(b: u8) -> bool {
    'a' <= b as char <= 'z'
}

/// Whether the byte `b` is a space: a blank, a tab, a line feed, a form
/// feed or a carriage return. Spaces separate tokens and are otherwise
/// ignored.
pub open spec fn is_space(b: u8) -> bool {
    let c = b as char;
    c == ' ' || c == '\t' || c == '\n' || c == '\x0c' || c == '\r'
}

/// The first position at or after `pos` that holds no digit.
pub open spec fn digits_end(s: Seq<u8>, pos: int) -> int
    decreases s.len() - pos,
{
    if 0 <= pos < s.len() && is_digit(s[pos]) {
        digits_end(s, pos + 1)
    } else {
        pos
    }
}

/// The number that the digits of `s` in `[from, to)` denote in base ten.
pub open spec fn decimal(s: Seq<u8>, from: int, to: int) -> nat
    decreases to - from,
{
    if from >= to {
        0
    } else {
        decimal(s, from, to - 1) * 10 + (s[to - 1] - '0' as u8) as nat
    }
}

/// Whether the byte after the one at `pos` is `=`.
pub open spec fn before_equals(s: Seq<u8>, pos: int) -> bool {
    pos + 1 < s.len() && s[pos + 1] as char == '='
}

/// Where the token that starts at `pos` ends: a number takes all the digits
/// that follow it, `==`, `!=`, `<=` and `>=` take two bytes, everything else
/// takes one.
pub open spec fn token_end(s: Seq<u8>, pos: int) -> int {
    let c = s[pos] as char;
    if is_digit(s[pos]) {
        digits_end(s, pos)
    } else if (c == '=' || c == '!' || c == '<' || c == '>') && before_equals(s, pos) {
        pos + 2
    } else {
        pos + 1
    }
}

/// The kind of the token that starts at `pos`, where `s[pos]` is no space.
///
/// A `!` that is not followed by `=` starts no token: at the end of the text
/// the scanner ran out of input, elsewhere the `!` is an invalid character.
pub open spec fn token_kind(s: Seq<u8>, pos: int) -> Result<TokenKind, ErrorKind> {
    let c = s[pos] as char;
    if is_digit(s[pos]) {
        Ok(TokenKind::Number(decimal(s, pos, digits_end(s, pos)) as u64))
    } else if is_letter(s[pos]) {
        Ok(TokenKind::Ident(Ident { name: c }))
    } else if c == '+' {
        Ok(TokenKind::Plus)
    } else if c == '-' {
        Ok(TokenKind::Minus)
    } else if c == '*' {
        Ok(TokenKind::Asterisk)
    } else if c == '/' {
        Ok(TokenKind::Slash)
    } else if c == '(' {
        Ok(TokenKind::LParen)
    } else if c == ')' {
        Ok(TokenKind::RParen)
    } else if c == ';' {
        Ok(TokenKind::SemiColon)
    } else if c == '=' {
        Ok(if before_equals(s, pos) { TokenKind::Eq } else { TokenKind::Assign })
    } else if c == '<' {
        Ok(if before_equals(s, pos) { TokenKind::Le } else { TokenKind::Lt })
    } else if c == '>' {
        Ok(if before_equals(s, pos) { TokenKind::Ge } else { TokenKind::Gt })
    } else if c == '!' {
        if before_equals(s, pos) {
            Ok(TokenKind::Ne)
        } else if pos + 1 < s.len() {
            Err(ErrorKind::InvalidChar('!'))
        } else {
            Err(ErrorKind::Eof)
        }
    } else {
        Err(ErrorKind::InvalidChar(c))
    }
}

/// The token that starts at `pos` with its span, or the failure with the
/// span of the offending byte (of the end of the text, where input ran out).
pub open spec fn token_at(s: Seq<u8>, pos: int) -> Result<Token, Error> {
    match token_kind(s, pos) {
        Ok(value) => Ok(Token { value, loc: Loc(pos as usize, token_end(s, pos) as usize) }),
        Err(ErrorKind::Eof) => Err(
            Error { value: ErrorKind::Eof, loc: Loc(s.len() as usize, s.len() as usize) },
        ),
        Err(value) => Err(Error { value, loc: Loc(pos as usize, (pos + 1) as usize) }),
    }
}

/// `tokens` in front of what `rest` holds, or the failure of `rest`.
pub open spec fn followed_by(tokens: Seq<Token>, rest: Result<Seq<Token>, Error>) -> Result<
    Seq<Token>,
    Error,
> {
    match rest {
        Ok(more) => Ok(tokens + more),
        Err(e) => Err(e),
    }
}

/// The tokens of `s` from `pos` on, closed by the end marker, or the first
/// failure.
pub open spec fn tokens_from(s: Seq<u8>, pos: int) -> Result<Seq<Token>, Error>
    decreases s.len() - pos,
{
    if pos < 0 || pos >= s.len() {
        Ok(seq![Token { value: TokenKind::Eof, loc: Loc(s.len() as usize, s.len() as usize) }])
    } else if is_space(s[pos]) {
        tokens_from(s, pos + 1)
    } else {
        proof {
            lemma_digits_end(s, pos);
        }
        match token_at(s, pos) {
            Ok(token) => followed_by(seq![token], tokens_from(s, token_end(s, pos))),
            Err(e) => Err(e),
        }
    }
}

/// What the scanner makes of the text `s`.
pub open spec fn scan(s: Seq<u8>) -> Result<Seq<Token>, Error> {
    tokens_from(s, 0)
}

/// Whether every number that the scanner reads in `s` from `pos` on, up to
/// the first failure, fits in 64 bits.
pub open spec fn representable_from(s: Seq<u8>, pos: int) -> bool
    decreases s.len() - pos,
{
    if pos < 0 || pos >= s.len() {
        true
    } else if is_space(s[pos]) {
        representable_from(s, pos + 1)
    } else if token_kind(s, pos) is Err {
        true
    } else {
        proof {
            lemma_digits_end(s, pos);
        }
        &&& is_digit(s[pos]) ==> decimal(s, pos, digits_end(s, pos)) <= u64::MAX
        &&& representable_from(s, token_end(s, pos))
    }
}

/// Whether the scanner can hold every number of `s` that it gets to.
pub open spec fn representable(s: Seq<u8>) -> bool {
    representable_from(s, 0)
}

/// The digits from `pos` on end at or after `pos` and inside the text;
/// all before their end are digits, and what stands at their end is none.
pub proof fn lemma_digits_end(s: Seq<u8>, pos: int)
    ensures
        pos <= digits_end(s, pos),
        0 <= pos <= s.len() ==> digits_end(s, pos) <= s.len(),
        forall|i: int| pos <= i < digits_end(s, pos) ==> is_digit(#[trigger] s[i]),
        0 <= digits_end(s, pos) < s.len() ==> !is_digit(s[digits_end(s, pos)]),
    decreases s.len() - pos,
{
    if 0 <= pos < s.len() && is_digit(s[pos]) {
        lemma_digits_end(s, pos + 1);
    }
}

/// More digits denote no smaller a number.
pub proof fn lemma_decimal_grows(s: Seq<u8>, from: int, mid: int, to: int)
    requires
        from <= mid <= to,
        forall|i: int| from <= i < to ==> is_digit(#[trigger] s[i]),
    ensures
        decimal(s, from, mid) <= decimal(s, from, to),
    decreases to - mid,
{
    if mid < to {
        lemma_decimal_grows(s, from, mid, to - 1);
    }
}

/// A cursor over the bytes of the source text.
struct Input<'a> {
    input: &'a [u8],
    pos: usize,
}

impl<'a> Input<'a> {
    spec fn wf(&self) -> bool {
        self.pos <= self.input@.len() <= usize::MAX
    }

    fn new(s: &'a str) -> (input: Self)
        ensures
            input.wf(),
            input.input@ == s.spec_bytes(),
            input.pos == 0,
    {
        let input = s.as_bytes();
        let _ = input.len();
        Self { input, pos: 0 }
    }

    fn pos(&self) -> (pos: usize)
        ensures
            pos == self.pos,
    {
        self.pos
    }

    fn eof(&self) -> (e: Error)
        ensures
            e == (Error { value: ErrorKind::Eof, loc: Loc(self.pos, self.pos) }),
    {
        let pos = self.pos();
        Error::eof(Loc(pos, pos))
    }

    fn peek(&self) -> (r: Result<u8, Error>)
        requires
            self.wf(),
        ensures
            r == if self.pos < self.input@.len() {
                Ok::<u8, Error>(self.input@[self.pos as int])
            } else {
                Err::<u8, Error>(Error { value: ErrorKind::Eof, loc: Loc(self.pos, self.pos) })
            },
    {
        if self.pos < self.input.len() {
            Ok(self.input[self.pos])
        } else {
            Err(self.eof())
        }
    }

    fn inc_n(&mut self, n: usize)
        requires
            old(self).wf(),
            old(self).pos + n <= old(self).input@.len(),
        ensures
            final(self).wf(),
            final(self).input == old(self).input,
            final(self).pos == old(self).pos + n,
    {
        self.pos = self.pos + n;
    }

    fn inc(&mut self)
        requires
            old(self).wf(),
            old(self).pos < old(self).input@.len(),
        ensures
            final(self).wf(),
            final(self).input == old(self).input,
            final(self).pos == old(self).pos + 1,
    {
        self.inc_n(1);
    }

    fn pos_then_inc(&mut self) -> (pos: usize)
        requires
            old(self).wf(),
            old(self).pos < old(self).input@.len(),
        ensures
            final(self).wf(),
            final(self).input == old(self).input,
            final(self).pos == old(self).pos + 1,
            pos == old(self).pos,
    {
        let pos = self.pos();
        self.inc();
        pos
    }

    /// Steps over the byte `want` and returns where it stood. Any other
    /// byte, and the end of the text, is a failure that moves nothing.
    fn consume_byte(&mut self, want: u8) -> (r: Result<usize, Error>)
        requires
            old(self).wf(),
        ensures
            final(self).input == old(self).input,
            final(self).wf(),
            ({
                let s = old(self).input@;
                let pos = old(self).pos;
                if pos >= s.len() {
                    &&& r == Err::<usize, Error>(
                        Error { value: ErrorKind::Eof, loc: Loc(pos, pos) },
                    )
                    &&& final(self).pos == pos
                } else if s[pos as int] != want {
                    &&& r == Err::<usize, Error>(
                        Error {
                            value: ErrorKind::InvalidChar(s[pos as int] as char),
                            loc: Loc(pos, (pos + 1) as usize),
                        },
                    )
                    &&& final(self).pos == pos
                } else {
                    &&& r == Ok::<usize, Error>(pos)
                    &&& final(self).pos == pos + 1
                }
            }),
    {
        match self.peek() {
            Err(e) => Err(e),
            Ok(got) => {
                if got != want {
                    let pos = self.pos();
                    Err(Error::invalid_char(got as char, Loc(pos, pos + 1)))
                } else {
                    Ok(self.pos_then_inc())
                }
            },
        }
    }

    /// Steps over the two bytes `first`, `second` if the text goes on with
    /// them, and says whether it did, with the position before the step.
    fn consume_bytes(&mut self, first: u8, second: u8) -> (r: (bool, usize))
        requires
            old(self).wf(),
        ensures
            final(self).input == old(self).input,
            final(self).wf(),
            r.1 == old(self).pos,
            r.0 == ({
                &&& old(self).pos + 1 < old(self).input@.len()
                &&& old(self).input@[old(self).pos as int] == first
                &&& old(self).input@[old(self).pos + 1] == second
            }),
            final(self).pos == if r.0 {
                old(self).pos + 2
            } else {
                old(self).pos as int
            },
    {
        let pos = self.pos();
        if self.input.len() - pos >= 2 && self.input[pos] == first && self.input[pos + 1]
            == second {
            self.inc_n(2);
            (true, pos)
        } else {
            (false, pos)
        }
    }

    /// Steps over the bytes at the cursor that `f` accepts, up to the first
    /// that it does not accept.
    fn consume(&mut self, f: impl Fn(u8) -> bool)
        requires
            old(self).wf(),
            forall|b: u8| call_requires(f, (b,)),
        ensures
            final(self).input == old(self).input,
            final(self).wf(),
            final(self).pos >= old(self).pos,
            forall|i: int|
                old(self).pos <= i < final(self).pos ==> call_ensures(
                    f,
                    (#[trigger] final(self).input@[i],),
                    true,
                ),
            final(self).pos < final(self).input@.len() ==> call_ensures(
                f,
                (final(self).input@[final(self).pos as int],),
                false,
            ),
    {
        loop
            invariant
                self.wf(),
                self.input == old(self).input,
                self.pos >= old(self).pos,
                forall|b: u8| call_requires(f, (b,)),
                forall|i: int|
                    old(self).pos <= i < self.pos ==> call_ensures(
                        f,
                        (#[trigger] self.input@[i],),
                        true,
                    ),
            ensures
                self.pos < self.input@.len() ==> call_ensures(
                    f,
                    (self.input@[self.pos as int],),
                    false,
                ),
            decreases self.input@.len() - self.pos,
        {
            match self.peek() {
                Ok(b) => {
                    if f(b) {
                        self.inc();
                    } else {
                        break;
                    }
                },
                Err(_) => break,
            }
        }
    }

    /// Steps over the spaces at the cursor.
    fn consume_spaces(&mut self)
        requires
            old(self).wf(),
        ensures
            final(self).input == old(self).input,
            final(self).wf(),
            final(self).pos >= old(self).pos,
            forall|i: int|
                old(self).pos <= i < final(self).pos ==> is_space(#[trigger] final(self).input@[i]),
            final(self).pos < final(self).input@.len() ==> !is_space(
                final(self).input@[final(self).pos as int],
            ),
    {
        self.consume(byte_is_space)
    }

    /// Steps over the digits at the cursor and returns where they began and
    /// the number that they denote.
    fn consume_numbers(&mut self) -> (r: (usize, u64))
        requires
            old(self).wf(),
            decimal(
                old(self).input@,
                old(self).pos as int,
                digits_end(old(self).input@, old(self).pos as int),
            ) <= u64::MAX,
        ensures
            final(self).input == old(self).input,
            final(self).wf(),
            final(self).pos == digits_end(old(self).input@, old(self).pos as int),
            r.0 == old(self).pos,
            r.1 == decimal(old(self).input@, old(self).pos as int, final(self).pos as int),
    {
        let start = self.pos();
        self.consume(byte_is_digit);
        proof {
            lemma_digits_found(self.input@, start as int, self.pos as int);
        }
        let n = parse_decimal(self.input, start, self.pos()).unwrap();
        (start, n)
    }

    /// Steps over the digits at the cursor and says whether the number that
    /// they denote fits in 64 bits.
    fn number_fits(&mut self) -> (fits: bool)
        requires
            old(self).wf(),
        ensures
            final(self).input == old(self).input,
            final(self).wf(),
            final(self).pos == digits_end(old(self).input@, old(self).pos as int),
            fits == (decimal(old(self).input@, old(self).pos as int, final(self).pos as int)
                <= u64::MAX),
    {
        let start = self.pos();
        self.consume(byte_is_digit);
        proof {
            lemma_digits_found(self.input@, start as int, self.pos as int);
        }
        parse_decimal(self.input, start, self.pos()).is_some()
    }
}

/// Digits up to `to`, and none at `to`, are the digits from `from` on.
proof fn lemma_digits_found(s: Seq<u8>, from: int, to: int)
    requires
        0 <= from <= to <= s.len(),
        forall|i: int| from <= i < to ==> is_digit(#[trigger] s[i]),
        to < s.len() ==> !is_digit(s[to]),
    ensures
        digits_end(s, from) == to,
    decreases to - from,
{
    if from < to {
        lemma_digits_found(s, from + 1, to);
    }
}

/// Reads the digits of `bytes` in `[from, to)` as a number in base ten.
/// There is none where the number does not fit in 64 bits.
fn parse_decimal(bytes: &[u8], from: usize, to: usize) -> (r: Option<u64>)
    requires
        from <= to <= bytes@.len(),
        forall|i: int| from <= i < to ==> is_digit(#[trigger] bytes@[i]),
    ensures
        r == if decimal(bytes@, from as int, to as int) <= u64::MAX {
            Some(decimal(bytes@, from as int, to as int) as u64)
        } else {
            None
        },
{
    let mut n: u64 = 0;
    let mut i = from;
    while i < to
        invariant
            from <= i <= to <= bytes@.len(),
            n == decimal(bytes@, from as int, i as int),
            forall|i: int| from <= i < to ==> is_digit(#[trigger] bytes@[i]),
        decreases to - i,
    {
        let digit: u64 = (bytes[i] - '0' as u8) as u64;
        if n > (u64::MAX - digit) / 10 {
            proof {
                lemma_decimal_grows(bytes@, from as int, i + 1, to as int);
            }
            return None;
        }
        n = n * 10 + digit;
        i = i + 1;
    }
    Some(n)
}

/// What a lexer does that is started on the first byte of a token: it
/// returns the token that the text holds there and stops behind it, or
/// returns the failure that the text holds there.
spec fn lexes(before: Input, after: Input, r: Result<Token, Error>) -> bool {
    &&& after.input == before.input
    &&& after.wf()
    &&& r == token_at(before.input@, before.pos as int)
    &&& r is Ok ==> after.pos == token_end(before.input@, before.pos as int)
}

/// Whether the cursor stands on the character `c`.
spec fn at_char(input: Input, c: char) -> bool {
    &&& input.wf()
    &&& input.pos < input.input@.len()
    &&& input.input@[input.pos as int] as char == c
}

fn lex_number(input: &mut Input) -> (r: Result<Token, Error>)
    requires
        old(input).wf(),
        old(input).pos < old(input).input@.len(),
        is_digit(old(input).input@[old(input).pos as int]),
        decimal(
            old(input).input@,
            old(input).pos as int,
            digits_end(old(input).input@, old(input).pos as int),
        ) <= u64::MAX,
    ensures
        lexes(*old(input), *final(input), r),
{
    let (pos, n) = input.consume_numbers();
    Ok(Token::number(n, Loc(pos, input.pos())))
}

fn lex_plus(input: &mut Input) -> (r: Result<Token, Error>)
    requires
        at_char(*old(input), '+'),
    ensures
        lexes(*old(input), *final(input), r),
{
    match input.consume_byte('+' as u8) {
        Ok(pos) => Ok(Token::plus(Loc(pos, pos + 1))),
        Err(e) => Err(e),
    }
}

fn lex_minus(input: &mut Input) -> (r: Result<Token, Error>)
    requires
        at_char(*old(input), '-'),
    ensures
        lexes(*old(input), *final(input), r),
{
    match input.consume_byte('-' as u8) {
        Ok(pos) => Ok(Token::minus(Loc(pos, pos + 1))),
        Err(e) => Err(e),
    }
}

fn lex_asterisk(input: &mut Input) -> (r: Result<Token, Error>)
    requires
        at_char(*old(input), '*'),
    ensures
        lexes(*old(input), *final(input), r),
{
    match input.consume_byte('*' as u8) {
        Ok(pos) => Ok(Token::asterisk(Loc(pos, pos + 1))),
        Err(e) => Err(e),
    }
}

fn lex_slash(input: &mut Input) -> (r: Result<Token, Error>)
    requires
        at_char(*old(input), '/'),
    ensures
        lexes(*old(input), *final(input), r),
{
    match input.consume_byte('/' as u8) {
        Ok(pos) => Ok(Token::slash(Loc(pos, pos + 1))),
        Err(e) => Err(e),
    }
}

fn lex_lparen(input: &mut Input) -> (r: Result<Token, Error>)
    requires
        at_char(*old(input), '('),
    ensures
        lexes(*old(input), *final(input), r),
{
    match input.consume_byte('(' as u8) {
        Ok(pos) => Ok(Token::lparen(Loc(pos, pos + 1))),
        Err(e) => Err(e),
    }
}

fn lex_rparen(input: &mut Input) -> (r: Result<Token, Error>)
    requires
        at_char(*old(input), ')'),
    ensures
        lexes(*old(input), *final(input), r),
{
    match input.consume_byte(')' as u8) {
        Ok(pos) => Ok(Token::rparen(Loc(pos, pos + 1))),
        Err(e) => Err(e),
    }
}

fn lex_semi_colon(input: &mut Input) -> (r: Result<Token, Error>)
    requires
        at_char(*old(input), ';'),
    ensures
        lexes(*old(input), *final(input), r),
{
    match input.consume_byte(';' as u8) {
        Ok(pos) => Ok(Token::semi_colon(Loc(pos, pos + 1))),
        Err(e) => Err(e),
    }
}

fn lex_equal(input: &mut Input) -> (r: Result<Token, Error>)
    requires
        at_char(*old(input), '='),
    ensures
        lexes(*old(input), *final(input), r),
{
    let (consumed, pos) = input.consume_bytes('=' as u8, '=' as u8);
    if consumed {
        Ok(Token::equal(Loc(pos, pos + 2)))
    } else {
        match input.consume_byte('=' as u8) {
            Ok(pos) => Ok(Token::assign(Loc(pos, pos + 1))),
            Err(e) => Err(e),
        }
    }
}

fn lex_exclamation(input: &mut Input) -> (r: Result<Token, Error>)
    requires
        at_char(*old(input), '!'),
    ensures
        lexes(*old(input), *final(input), r),
{
    let (consumed, pos) = input.consume_bytes('!' as u8, '=' as u8);
    if consumed {
        Ok(Token::not_equal(Loc(pos, pos + 2)))
    } else if pos + 1 < input.input.len() {
        Err(Error::invalid_char('!', Loc(pos, pos + 1)))
    } else {
        input.inc();
        Err(input.eof())
    }
}

fn lex_greater(input: &mut Input) -> (r: Result<Token, Error>)
    requires
        at_char(*old(input), '>'),
    ensures
        lexes(*old(input), *final(input), r),
{
    let (consumed, pos) = input.consume_bytes('>' as u8, '=' as u8);
    if consumed {
        Ok(Token::greater_equal(Loc(pos, pos + 2)))
    } else {
        match input.consume_byte('>' as u8) {
            Ok(pos) => Ok(Token::greater_than(Loc(pos, pos + 1))),
            Err(e) => Err(e),
        }
    }
}

fn lex_less(input: &mut Input) -> (r: Result<Token, Error>)
    requires
        at_char(*old(input), '<'),
    ensures
        lexes(*old(input), *final(input), r),
{
    let (consumed, pos) = input.consume_bytes('<' as u8, '=' as u8);
    if consumed {
        Ok(Token::less_equal(Loc(pos, pos + 2)))
    } else {
        match input.consume_byte('<' as u8) {
            Ok(pos) => Ok(Token::less_than(Loc(pos, pos + 1))),
            Err(e) => Err(e),
        }
    }
}

fn lex_ident(input: &mut Input) -> (r: Result<Token, Error>)
    requires
        old(input).wf(),
        old(input).pos < old(input).input@.len(),
        is_letter(old(input).input@[old(input).pos as int]),
    ensures
        lexes(*old(input), *final(input), r),
{
    match input.peek() {
        Ok(letter) => {
            let pos = input.pos_then_inc();
            Ok(Token::ident(letter as char, Loc(pos, pos + 1)))
        },
        Err(e) => Err(e),
    }
}

/// Spaces are skipped: the tokens from a run of spaces on are the tokens
/// from its end on, with the spans that they have there.
pub proof fn lemma_spaces_skipped(s: Seq<u8>, from: int, to: int)
    requires
        0 <= from <= to <= s.len(),
        forall|i: int| from <= i < to ==> is_space(#[trigger] s[i]),
    ensures
        tokens_from(s, from) == tokens_from(s, to),
        representable_from(s, from) == representable_from(s, to),
    decreases to - from,
{
    if from < to {
        lemma_spaces_skipped(s, from + 1, to);
    }
}

/// Reads the token at the cursor, which stands on a byte that is no space.
fn lex(input: &mut Input, first: u8) -> (r: Result<Token, Error>)
    requires
        old(input).wf(),
        old(input).pos < old(input).input@.len(),
        first == old(input).input@[old(input).pos as int],
        is_digit(first) ==> decimal(
            old(input).input@,
            old(input).pos as int,
            digits_end(old(input).input@, old(input).pos as int),
        ) <= u64::MAX,
    ensures
        lexes(*old(input), *final(input), r),
{
    match first as char {
        '0'..='9' => lex_number(input),
        '+' => lex_plus(input),
        '-' => lex_minus(input),
        '*' => lex_asterisk(input),
        '/' => lex_slash(input),
        '(' => lex_lparen(input),
        ')' => lex_rparen(input),
        '=' => lex_equal(input),
        '!' => lex_exclamation(input),
        '>' => lex_greater(input),
        '<' => lex_less(input),
        'a'..='z' => lex_ident(input),
        ';' => lex_semi_colon(input),
        c => Err(Error::invalid_char(c, Loc(input.pos(), input.pos() + 1))),
    }
}

/// Splits source text into tokens.
///
/// The result is the tokens of `input` in the order of the text, each with
/// the bytes that it spans, and the end marker after them; or the first
/// failure: a byte that starts no token, or a `!` on which the text ends.
/// Numbers are read in base ten and must fit in 64 bits: see
/// [`is_representable`].
pub fn tokenize(input: &str) -> (r: Result<Stream, crate::error::Error>)
    requires
        representable(input.spec_bytes()),
    ensures
        match r {
            Ok(tokens) => scan(input.spec_bytes()) == Ok::<Seq<Token>, Error>(tokens@),
            Err(e) => e matches crate::error::Error::Lexer(cause) && scan(input.spec_bytes())
                == Err::<Seq<Token>, Error>(cause),
        },
{
    let ghost s = input.spec_bytes();
    let mut tokens: Vec<Token> = Vec::new();
    let mut cursor = Input::new(input);
    loop
        invariant
            cursor.wf(),
            s == input.spec_bytes(),
            cursor.input@ == s,
            scan(s) == followed_by(tokens@, tokens_from(s, cursor.pos as int)),
            representable_from(s, cursor.pos as int),
        decreases s.len() - cursor.pos,
    {
        match cursor.peek() {
            Err(e) => match e.value {
                ErrorKind::Eof => {
                    let ghost before = tokens@;
                    let end = Token::eof(Loc(cursor.pos(), cursor.pos()));
                    tokens.push(end);
                    assert(before + seq![end] =~= tokens@);
                    return Ok(tokens);
                },
                _ => return Err(crate::error::Error::from(e)),
            },
            Ok(b) => {
                if byte_is_space(b) {
                    let ghost from = cursor.pos as int;
                    cursor.consume_spaces();
                    proof {
                        lemma_spaces_skipped(s, from, cursor.pos as int);
                    }
                } else {
                    proof {
                        lemma_digits_end(s, cursor.pos as int);
                    }
                    let ghost before = tokens@;
                    match lex(&mut cursor, b) {
                        Ok(token) => {
                            tokens.push(token);
                            assert(before + (seq![token] + tokens_from(s, cursor.pos as int)->Ok_0)
                                =~= tokens@ + tokens_from(s, cursor.pos as int)->Ok_0);
                        },
                        Err(e) => return Err(crate::error::Error::from(e)),
                    }
                }
            },
        }
    }
}

/// Whether [`tokenize`] can hold every number of `input` that it gets to:
/// whether each fits in 64 bits.
pub fn is_representable(input: &str) -> (r: bool)
    ensures
        r == representable(input.spec_bytes()),
{
    let ghost s = input.spec_bytes();
    let mut cursor = Input::new(input);
    loop
        invariant
            cursor.wf(),
            s == input.spec_bytes(),
            cursor.input@ == s,
            representable(s) == representable_from(s, cursor.pos as int),
        decreases s.len() - cursor.pos,
    {
        match cursor.peek() {
            Err(_) => return true,
            Ok(b) => {
                proof {
                    lemma_digits_end(s, cursor.pos as int);
                }
                if byte_is_space(b) {
                    let ghost from = cursor.pos as int;
                    cursor.consume_spaces();
                    proof {
                        lemma_spaces_skipped(s, from, cursor.pos as int);
                    }
                } else if byte_is_digit(b) {
                    if !cursor.number_fits() {
                        return false;
                    }
                } else if lex(&mut cursor, b).is_err() {
                    return true;
                }
            },
        }
    }
}

fn byte_is_space(b: u8) -> (r: bool)
    ensures
        r == is_space(b),
{
    let c = b as char;
    c == ' ' || c == '\t' || c == '\n' || c == '\x0c' || c == '\r'
}

fn byte_is_digit(b: u8) -> (r: bool)
    ensures
        r == is_digit(b),
{
    let c = b as char;
    '0' <= c && c <= '9'
}

} // verus!
