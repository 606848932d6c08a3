use crate::ast::node::Kind;
use vstd::prelude::*;

verus! {

/// The number of values of a 64-bit word.
pub open spec fn modulus() -> int {
    0x1_0000_0000_0000_0000
}

/// The word that holds the integer `i`, in two's complement: what is left
/// of `i` after wrapping around.
#[verifier::opaque]
pub open spec fn word(i: int) -> u64 {
    (i % modulus()) as u64
}

/// The integer that the word `w` holds when read as a signed number.
pub open spec fn signed(w: u64) -> int {
    if w < 0x8000_0000_0000_0000 {
        w as int
    } else {
        w - modulus()
    }
}

/// `a / b` rounded toward zero, for `b != 0`.
#[verifier::opaque]
pub open spec fn quotient(a: int, b: int) -> int {
    if a >= 0 && b > 0 {
        a / b
    } else if a >= 0 {
        -(a / (-b))
    } else if b > 0 {
        -((-a) / b)
    } else {
        (-a) / (-b)
    }
}

/// Whether the integer `i` can be held in a word as a signed number.
pub open spec fn fits_signed(i: int) -> bool {
    -0x8000_0000_0000_0000 <= i < 0x8000_0000_0000_0000
}

/// The word `w` with the byte `byte` in place of its low byte.
#[verifier::opaque]
pub open spec fn with_low_byte(w: u64, byte: u64) -> u64 {
    (w - w % 256 + byte) as u64
}

/// The low byte of the word `w`.
#[verifier::opaque]
pub open spec fn low_byte(w: u64) -> u64 {
    w % 256
}

/// The sign of the word `w`, spread over a word: what stands above `w` in
/// the signed number of two words that equals `w` read as a signed number.
pub open spec fn sign_extension(w: u64) -> u64 {
    if signed(w) < 0 {
        u64::MAX
    } else {
        0
    }
}

/// The signed number that the two words `high` and `low` hold together.
pub open spec fn signed_pair(high: u64, low: u64) -> int {
    signed(high) * modulus() + low
}

/// 1 for true, 0 for false.
pub open spec fn truth(b: bool) -> u64 {
    if b {
        1
    } else {
        0
    }
}

/// The value of the operator `kind` on the values `a` and `b` of its
/// operands. Sums, differences and products wrap around. Quotients are of
/// signed numbers and round toward zero; there is none where the divisor
/// is zero or the quotient cannot be held. Comparisons are of signed
/// numbers and give 1 or 0.
pub open spec fn combine(kind: Kind, a: u64, b: u64) -> Option<u64> {
    match kind {
        Kind::Add => Some(word(a + b)),
        Kind::Sub => Some(word(a - b)),
        Kind::Mul => Some(word(a * b)),
        Kind::Div => if signed(b) != 0 && fits_signed(quotient(signed(a), signed(b))) {
            Some(word(quotient(signed(a), signed(b))))
        } else {
            None
        },
        Kind::Eq => Some(truth(a == b)),
        Kind::Ne => Some(truth(a != b)),
        Kind::Lt => Some(truth(signed(a) < signed(b))),
        Kind::Le => Some(truth(signed(a) <= signed(b))),
        _ => None,
    }
}

/// To go down from `base` by `offset` and to ask how far below `base`
/// that is gives `offset`, also where the subtraction wraps around.
pub proof fn lemma_word_down_and_back(base: u64, offset: u64)
    ensures
        word(base - word(base - offset)) == offset,
{
    reveal(word);
    if base >= offset {
        assert(word(base - offset) == base - offset);
    } else {
        assert(word(base - offset) == base - offset + modulus());
    }
}

/// The low byte of a word is the byte that was put there.
pub proof fn lemma_low_byte(w: u64, byte: u64)
    requires
        byte < 256,
    ensures
        low_byte(with_low_byte(w, byte)) == byte,
{
    reveal(with_low_byte);
    reveal(low_byte);
}

/// A word under its sign extension is the word read as a signed number.
pub proof fn lemma_sign_extension(w: u64)
    ensures
        signed_pair(sign_extension(w), w) == signed(w),
{
}

} // verus!
