//! Which tokens survive the conversion: comments never do, a comma does
//! unless the next significant token is a comma, a closing bracket or the
//! end of the text, and every other token does.

use vstd::prelude::*;
use vstd::string::StringSliceAdditionalSpecFns;
use crate::token::{tiles, Token, TokenKind};

verus! {

pub const COMMA: u8 = 0x2c;

pub const CLOSE_BRACKET: u8 = 0x5d;

pub const CLOSE_BRACE: u8 = 0x7d;

/// The bytes that a token covers.
pub open spec fn token_bytes(bytes: Seq<u8>, t: Token) -> Seq<u8> {
    bytes.subrange(t.start as int, t.end as int)
}

/// Whitespace and comments, which the comma lookahead passes over.
pub open spec fn is_trivia(k: TokenKind) -> bool {
    k == TokenKind::Space || k == TokenKind::LineComment || k == TokenKind::BlockComment
}

pub open spec fn is_comma(bytes: Seq<u8>, t: Token) -> bool {
    t.kind == TokenKind::Punct && token_bytes(bytes, t) == seq![COMMA]
}

/// A closing bracket or brace.
pub open spec fn is_closer(bytes: Seq<u8>, t: Token) -> bool {
    t.kind == TokenKind::Delim && (token_bytes(bytes, t) == seq![CLOSE_BRACKET]
        || token_bytes(bytes, t) == seq![CLOSE_BRACE])
}

/// Whether a comma that stands just before token `j` is redundant: past the
/// trivia from `j` on there is nothing, another comma, or a closer.
pub open spec fn comma_elided_at(bytes: Seq<u8>, toks: Seq<Token>, j: int) -> bool
    decreases toks.len() - j,
{
    if j >= toks.len() {
        true
    } else if is_trivia(toks[j].kind) {
        comma_elided_at(bytes, toks, j + 1)
    } else {
        is_comma(bytes, toks[j]) || is_closer(bytes, toks[j])
    }
}

/// Whether token `i` is copied to the output.
pub open spec fn is_kept(bytes: Seq<u8>, toks: Seq<Token>, i: int) -> bool {
    match toks[i].kind {
        TokenKind::LineComment | TokenKind::BlockComment => false,
        _ => !(is_comma(bytes, toks[i]) && comma_elided_at(bytes, toks, i + 1)),
    }
}

/// The bytes of the kept tokens from token `i` on, in order.
pub open spec fn kept_from(bytes: Seq<u8>, toks: Seq<Token>, i: int) -> Seq<u8>
    decreases toks.len() - i,
{
    if i >= toks.len() {
        seq![]
    } else if is_kept(bytes, toks, i) {
        token_bytes(bytes, toks[i]) + kept_from(bytes, toks, i + 1)
    } else {
        kept_from(bytes, toks, i + 1)
    }
}

/// Every token is kept: there is no comment and no redundant comma.
pub open spec fn nothing_dropped(bytes: Seq<u8>, toks: Seq<Token>) -> bool {
    forall|i: int| 0 <= i < toks.len() ==> #[trigger] is_kept(bytes, toks, i)
}

/// The tokens from `i` on that the policy keeps, in order.
pub open spec fn survivors(bytes: Seq<u8>, toks: Seq<Token>, i: int) -> Seq<Token>
    decreases toks.len() - i,
{
    if i >= toks.len() {
        seq![]
    } else if is_kept(bytes, toks, i) {
        seq![toks[i]] + survivors(bytes, toks, i + 1)
    } else {
        survivors(bytes, toks, i + 1)
    }
}

proof fn lemma_elided_shift(bytes: Seq<u8>, x: Token, s: Seq<Token>, k: int)
    requires
        0 <= k,
    ensures
        comma_elided_at(bytes, seq![x] + s, k + 1) == comma_elided_at(bytes, s, k),
    decreases s.len() - k,
{
    let xs = seq![x] + s;
    if k < s.len() {
        assert(xs[k + 1] == s[k]);
        lemma_elided_shift(bytes, x, s, k + 1);
    }
}

proof fn lemma_survivors_keep_comma(bytes: Seq<u8>, toks: Seq<Token>, j: int)
    requires
        0 <= j,
        !comma_elided_at(bytes, toks, j),
    ensures
        !comma_elided_at(bytes, survivors(bytes, toks, j), 0),
    decreases toks.len() - j,
{
    let t = toks[j];
    let rest = survivors(bytes, toks, j + 1);
    if is_trivia(t.kind) {
        lemma_survivors_keep_comma(bytes, toks, j + 1);
        if is_kept(bytes, toks, j) {
            lemma_elided_shift(bytes, t, rest, 0);
            assert((seq![t] + rest)[0] == t);
        }
    } else {
        assert(is_kept(bytes, toks, j));
        assert((seq![t] + rest)[0] == t);
    }
}

proof fn lemma_survivors_kept_from(bytes: Seq<u8>, toks: Seq<Token>, i: int)
    requires
        0 <= i,
    ensures
        forall|m: int|
            0 <= m < survivors(bytes, toks, i).len() ==> #[trigger] is_kept(
                bytes,
                survivors(bytes, toks, i),
                m,
            ),
    decreases toks.len() - i,
{
    if i < toks.len() {
        lemma_survivors_kept_from(bytes, toks, i + 1);
        if is_kept(bytes, toks, i) {
            let t = toks[i];
            let rest = survivors(bytes, toks, i + 1);
            let all = seq![t] + rest;
            assert(all[0] == t);
            if is_comma(bytes, t) {
                lemma_survivors_keep_comma(bytes, toks, i + 1);
                lemma_elided_shift(bytes, t, rest, 0);
            }
            assert(is_kept(bytes, all, 0));
            assert forall|m: int| 1 <= m < all.len() implies #[trigger] is_kept(bytes, all, m) by {
                assert(all[m] == rest[m - 1]);
                assert(is_kept(bytes, rest, m - 1));
                lemma_elided_shift(bytes, t, rest, m);
            }
            assert(survivors(bytes, toks, i) == all);
        } else {
            assert(survivors(bytes, toks, i) == survivors(bytes, toks, i + 1));
        }
    }
}

/// The drop policy is idempotent: of the tokens that survive it, it keeps
/// every one. So a text that splits into exactly the survivors of another
/// loses nothing when converted again.
pub proof fn lemma_survivors_all_kept(bytes: Seq<u8>, toks: Seq<Token>)
    ensures
        nothing_dropped(bytes, survivors(bytes, toks, 0)),
{
    lemma_survivors_kept_from(bytes, toks, 0);
}

/// Whether `t` is a token of one byte equal to `c`.
fn token_is_byte(text: &str, t: &Token, c: u8) -> (r: bool)
    requires
        t.start < t.end <= text.spec_bytes().len(),
    ensures
        r == (token_bytes(text.spec_bytes(), *t) == seq![c]),
{
    let bytes = text.as_bytes();
    if t.end - t.start != 1 {
        proof {
            let s = token_bytes(text.spec_bytes(), *t);
            assert(s.len() != seq![c].len());
        }
        false
    } else {
        let r = bytes[t.start] == c;
        proof {
            let s = token_bytes(text.spec_bytes(), *t);
            if r {
                assert(s =~= seq![c]);
            } else {
                assert(s[0] != seq![c][0]);
            }
        }
        r
    }
}

/// Whether `t` is a comma.
pub fn token_is_comma(text: &str, t: &Token) -> (r: bool)
    requires
        t.start < t.end <= text.spec_bytes().len(),
    ensures
        r == is_comma(text.spec_bytes(), *t),
{
    match t.kind {
        TokenKind::Punct => token_is_byte(text, t, COMMA),
        _ => false,
    }
}

/// Whether `t` is a closing bracket or brace.
pub fn token_is_closer(text: &str, t: &Token) -> (r: bool)
    requires
        t.start < t.end <= text.spec_bytes().len(),
    ensures
        r == is_closer(text.spec_bytes(), *t),
{
    match t.kind {
        TokenKind::Delim => token_is_byte(text, t, CLOSE_BRACKET) || token_is_byte(
            text,
            t,
            CLOSE_BRACE,
        ),
        _ => false,
    }
}

/// Looks past the trivia from token `j` on, without moving any cursor, and
/// tells whether a comma just before `j` is to be dropped.
pub fn comma_elided(text: &str, tokens: &Vec<Token>, j: usize) -> (r: bool)
    requires
        tiles(text.spec_bytes(), tokens@),
    ensures
        r == comma_elided_at(text.spec_bytes(), tokens@, j as int),
{
    let mut k: usize = j;
    while k < tokens.len()
        invariant
            tiles(text.spec_bytes(), tokens@),
            j <= k,
            comma_elided_at(text.spec_bytes(), tokens@, j as int) == comma_elided_at(
                text.spec_bytes(),
                tokens@,
                k as int,
            ),
        decreases tokens.len() - k,
    {
        let t = &tokens[k];
        match t.kind {
            TokenKind::Space | TokenKind::LineComment | TokenKind::BlockComment => {},
            _ => {
                return token_is_comma(text, t) || token_is_closer(text, t);
            },
        }
        k = k + 1;
    }
    true
}

/// Whether token `i` is copied to the output.
pub fn token_kept(text: &str, tokens: &Vec<Token>, i: usize) -> (r: bool)
    requires
        tiles(text.spec_bytes(), tokens@),
        i < tokens@.len(),
    ensures
        r == is_kept(text.spec_bytes(), tokens@, i as int),
{
    let n = tokens.len();
    proof {
        assert(i + 1 <= n);
    }
    let t = &tokens[i];
    match t.kind {
        TokenKind::LineComment | TokenKind::BlockComment => false,
        _ => !(token_is_comma(text, t) && comma_elided(text, tokens, i + 1)),
    }
}

} // verus!
