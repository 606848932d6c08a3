use vstd::prelude::*;

verus! {

/// A half-open range `[start, end)` of byte offsets into the source text.
#[derive(Debug, Clone, Copy, PartialEq, Eq, Structural)]
pub struct Loc(pub usize, pub usize);

/// A value together with the place in the source text that it came from.
#[derive(Debug, Copy, PartialEq, Eq, Structural)]
pub struct Annot<T> {
    pub value: T,
    pub loc: Loc,
}

impl<T: Clone> Clone for Annot<T> {
    fn clone(&self) -> Self {
        Self { value: self.value.clone(), loc: self.loc }
    }
}

impl<T> Annot<T> {
    pub fn new(value: T, loc: Loc) -> (a: Self)
        ensures
            a == (Self { value, loc }),
    {
        Self { value, loc }
    }
}

/// Why the scanner gave up.
#[derive(Debug, Clone, Copy, PartialEq, Eq, Structural)]
pub enum ErrorKind {
    /// A byte that starts no token.
    InvalidChar(char),
    /// The text ended inside a two-byte operator.
    Eof,
}

/// A scanner failure and the place where it happened.
pub type Error = Annot<ErrorKind>;

impl Annot<ErrorKind> {
    pub fn invalid_char(c: char, loc: Loc) -> (e: Error)
        ensures
            e == (Error { value: ErrorKind::InvalidChar(c), loc }),
    {
        Self::new(ErrorKind::InvalidChar(c), loc)
    }

    pub fn eof(loc: Loc) -> (e: Error)
        ensures
            e == (Error { value: ErrorKind::Eof, loc }),
    {
        Self::new(ErrorKind::Eof, loc)
    }
}

/// The name of a variable. The language has the 26 names `a` to `z`.
#[derive(Debug, Clone, Copy, PartialEq, Eq, Structural)]
pub struct Ident {
    pub name: char,
}

impl Ident {
    pub fn new(name: char) -> (id: Self)
        ensures
            id.name == name,
    {
        Self { name }
    }
}

/// What a token is. A number carries its value, an identifier its name.
#[derive(Debug, Clone, Copy, PartialEq, Eq, Structural)]
pub enum TokenKind {
    /// `[0-9]+`
    Number(u64),
    /// `+`
    Plus,
    /// `-`
    Minus,
    /// `*`
    Asterisk,
    /// `/`
    Slash,
    /// `(`
    LParen,
    /// `)`
    RParen,
    /// `==`
    Eq,
    /// `!=`
    Ne,
    /// `>=`
    Ge,
    /// `>`
    Gt,
    /// `<=`
    Le,
    /// `<`
    Lt,
    /// `[a-z]`
    Ident(Ident),
    /// `;`
    SemiColon,
    /// `=`
    Assign,
    /// The end of the text.
    Eof,
}

impl TokenKind {
    pub fn is_number(&self) -> (b: bool)
        ensures
            b == (self is Number),
    {
        match *self {
            TokenKind::Number(_) => true,
            _ => false,
        }
    }

    /// Whether a token of kind `self` answers a request for `kind`. Any
    /// number answers a request for a number; every other kind answers only
    /// a request for itself.
    pub open spec fn matches_kind(self, kind: TokenKind) -> bool {
        match self {
            TokenKind::Number(_) => kind is Number,
            _ => self == kind,
        }
    }
}

/// A token and the bytes of the source text that it spans.
pub type Token = Annot<TokenKind>;

/// The tokens of one source text, in the order of the text.
pub type Stream = Vec<Token>;

impl Annot<TokenKind> {
    pub fn number(n: u64, loc: Loc) -> (t: Token)
        ensures
            t == (Token { value: TokenKind::Number(n), loc }),
    {
        Self::new(TokenKind::Number(n), loc)
    }

    pub fn plus(loc: Loc) -> (t: Token)
        ensures
            t == (Token { value: TokenKind::Plus, loc }),
    {
        Self::new(TokenKind::Plus, loc)
    }

    pub fn minus(loc: Loc) -> (t: Token)
        ensures
            t == (Token { value: TokenKind::Minus, loc }),
    {
        Self::new(TokenKind::Minus, loc)
    }

    pub fn asterisk(loc: Loc) -> (t: Token)
        ensures
            t == (Token { value: TokenKind::Asterisk, loc }),
    {
        Self::new(TokenKind::Asterisk, loc)
    }

    pub fn slash(loc: Loc) -> (t: Token)
        ensures
            t == (Token { value: TokenKind::Slash, loc }),
    {
        Self::new(TokenKind::Slash, loc)
    }

    pub fn lparen(loc: Loc) -> (t: Token)
        ensures
            t == (Token { value: TokenKind::LParen, loc }),
    {
        Self::new(TokenKind::LParen, loc)
    }

    pub fn rparen(loc: Loc) -> (t: Token)
        ensures
            t == (Token { value: TokenKind::RParen, loc }),
    {
        Self::new(TokenKind::RParen, loc)
    }

    pub fn equal(loc: Loc) -> (t: Token)
        ensures
            t == (Token { value: TokenKind::Eq, loc }),
    {
        Self::new(TokenKind::Eq, loc)
    }

    pub fn not_equal(loc: Loc) -> (t: Token)
        ensures
            t == (Token { value: TokenKind::Ne, loc }),
    {
        Self::new(TokenKind::Ne, loc)
    }

    pub fn greater_equal(loc: Loc) -> (t: Token)
        ensures
            t == (Token { value: TokenKind::Ge, loc }),
    {
        Self::new(TokenKind::Ge, loc)
    }

    pub fn greater_than(loc: Loc) -> (t: Token)
        ensures
            t == (Token { value: TokenKind::Gt, loc }),
    {
        Self::new(TokenKind::Gt, loc)
    }

    pub fn less_equal(loc: Loc) -> (t: Token)
        ensures
            t == (Token { value: TokenKind::Le, loc }),
    {
        Self::new(TokenKind::Le, loc)
    }

    pub fn less_than(loc: Loc) -> (t: Token)
        ensures
            t == (Token { value: TokenKind::Lt, loc }),
    {
        Self::new(TokenKind::Lt, loc)
    }

    pub fn ident(name: char, loc: Loc) -> (t: Token)
        ensures
            t == (Token { value: TokenKind::Ident(Ident { name }), loc }),
    {
        Self::new(TokenKind::Ident(Ident::new(name)), loc)
    }

    pub fn semi_colon(loc: Loc) -> (t: Token)
        ensures
            t == (Token { value: TokenKind::SemiColon, loc }),
    {
        Self::new(TokenKind::SemiColon, loc)
    }

    pub fn assign(loc: Loc) -> (t: Token)
        ensures
            t == (Token { value: TokenKind::Assign, loc }),
    {
        Self::new(TokenKind::Assign, loc)
    }

    pub fn eof(loc: Loc) -> (t: Token)
        ensures
            t == (Token { value: TokenKind::Eof, loc }),
    {
        Self::new(TokenKind::Eof, loc)
    }

    /// Whether the token answers a request for `kind`: see
    /// [`TokenKind::matches_kind`].
    pub fn is_kind(&self, kind: TokenKind) -> (b: bool)
        ensures
            b == self.value.matches_kind(kind),
    {
        match self.value {
            TokenKind::Number(_) => kind.is_number(),
            _ => self.value == kind,
        }
    }

    pub fn is_ident(&self) -> (b: bool)
        ensures
            b == (self.value is Ident),
    {
        match self.value {
            TokenKind::Ident(_) => true,
            _ => false,
        }
    }
}

} // verus!
