use crate::lex::scanner::{
    is_space, lemma_digits_end, scan, token_at, token_end, tokens_from,
};
use crate::lex::token::{Error, ErrorKind, Loc, Token, TokenKind};
use vstd::prelude::*;

verus! {

/// What holds of the tokens `ts` that the scanner makes of the text `s`
/// from `pos` on: the end marker closes them and stands nowhere else, each
/// token spans at least one byte of the text at or after `pos`, and the
/// tokens stand in the order of the text without overlap.
pub open spec fn in_order(s: Seq<u8>, pos: int, ts: Seq<Token>) -> bool {
    &&& ts.len() >= 1
    &&& ts.last() == (Token {
        value: TokenKind::Eof,
        loc: Loc(s.len() as usize, s.len() as usize),
    })
    &&& forall|i: int|
        0 <= i < ts.len() - 1 ==> {
            &&& !((#[trigger] ts[i]).value is Eof)
            &&& pos <= ts[i].loc.0 < ts[i].loc.1 <= s.len()
            &&& ts[i].loc.1 <= ts[i + 1].loc.0
        }
}

/// What holds of the failure `e` of the scanner on the text `s`: it lies
/// in the text, and an invalid character is reported with the byte that
/// stands there, and the end of input at the end of the text.
pub open spec fn in_text(s: Seq<u8>, e: Error) -> bool {
    match e.value {
        ErrorKind::InvalidChar(c) => {
            &&& e.loc.0 < s.len()
            &&& e.loc.1 == e.loc.0 + 1
            &&& s[e.loc.0 as int] as char == c
        },
        ErrorKind::Eof => e.loc == Loc(s.len() as usize, s.len() as usize),
    }
}

proof fn lemma_tokens_from(s: Seq<u8>, pos: int)
    requires
        0 <= pos <= s.len() <= usize::MAX,
    ensures
        match tokens_from(s, pos) {
            Ok(ts) => in_order(s, pos, ts),
            Err(e) => in_text(s, e),
        },
    decreases s.len() - pos,
{
    if pos >= s.len() {
    } else if is_space(s[pos]) {
        lemma_tokens_from(s, pos + 1);
    } else {
        lemma_digits_end(s, pos);
        lemma_tokens_from(s, token_end(s, pos));
        if let Ok(token) = token_at(s, pos) {
            if let Ok(rest) = tokens_from(s, token_end(s, pos)) {
                let ts = seq![token] + rest;
                assert(ts.last() == rest.last());
                assert forall|i: int| 0 <= i < ts.len() - 1 implies {
                    &&& !((#[trigger] ts[i]).value is Eof)
                    &&& pos <= ts[i].loc.0 < ts[i].loc.1 <= s.len()
                    &&& ts[i].loc.1 <= ts[i + 1].loc.0
                } by {
                    if i > 0 {
                        assert(ts[i] == rest[i - 1]);
                        assert(ts[i + 1] == rest[i]);
                    } else {
                        assert(ts[1] == rest[0]);
                        if rest.len() > 1 {
                            assert(token_end(s, pos) <= rest[0].loc.0);
                        }
                    }
                }
            }
        }
    }
}

/// The tokens that the scanner makes of a text end with the end marker,
/// span the text in its order without overlap, and none but the last is
/// the end marker. A failure of the scanner names a place in the text, and
/// the byte that stands there where the byte is at fault.
pub proof fn lemma_scan_in_order(s: Seq<u8>)
    requires
        s.len() <= usize::MAX,
    ensures
        match scan(s) {
            Ok(ts) => in_order(s, 0, ts),
            Err(e) => in_text(s, e),
        },
{
    lemma_tokens_from(s, 0);
}

} // verus!
