//! Lexical tokens of JSON with comments, and the tokenizer that yields them.

use vstd::prelude::*;
use vstd::string::StringSliceAdditionalSpecFns;
use vstd::utf8::is_char_boundary;
use any_lexer::JsonCToken;

verus! {

/// The lexical class of a token.
#[derive(Clone, Copy, Debug, PartialEq, Eq, Structural)]
pub enum TokenKind {
    Space,
    LineComment,
    BlockComment,
    String,
    Number,
    Null,
    True,
    False,
    /// `:` or `,`.
    Punct,
    /// One of `{`, `}`, `[` and `]`.
    Delim,
    Unknown,
}

/// A token: its class and the half-open byte range `start..end` that it
/// covers in the text.
#[derive(Clone, Copy, Debug, PartialEq, Eq, Structural)]
pub struct Token {
    pub kind: TokenKind,
    pub start: usize,
    pub end: usize,
}

/// The tokens cover `bytes` from the first byte to the last, in order, with
/// no gap and no overlap; each is non-empty and starts and ends on a
/// character boundary.
pub open spec fn tiles(bytes: Seq<u8>, toks: Seq<Token>) -> bool {
    &&& toks.len() == 0 ==> bytes.len() == 0
    &&& toks.len() > 0 ==> toks[0].start == 0 && toks.last().end == bytes.len()
    &&& forall|i: int|
        0 <= i < toks.len() ==> {
            &&& #[trigger] toks[i].start < toks[i].end
            &&& toks[i].end <= bytes.len()
            &&& is_char_boundary(bytes, toks[i].start as int)
            &&& is_char_boundary(bytes, toks[i].end as int)
        }
    &&& forall|i: int| 0 <= i < toks.len() - 1 ==> #[trigger] toks[i].end == toks[i + 1].start
}

/// The tokens that the JSON-with-comments tokenizer splits a text into.
pub uninterp spec fn jsonc_tokens(text: Seq<char>) -> Seq<Token>;

/// The class of a token of the outside tokenizer.
pub open spec fn kind_of(t: JsonCToken) -> TokenKind {
    match t {
        JsonCToken::Space => TokenKind::Space,
        JsonCToken::LineComment => TokenKind::LineComment,
        JsonCToken::BlockComment => TokenKind::BlockComment,
        JsonCToken::String => TokenKind::String,
        JsonCToken::Number => TokenKind::Number,
        JsonCToken::Null => TokenKind::Null,
        JsonCToken::True => TokenKind::True,
        JsonCToken::False => TokenKind::False,
        JsonCToken::Punct => TokenKind::Punct,
        JsonCToken::Delim => TokenKind::Delim,
        JsonCToken::Unknown => TokenKind::Unknown,
    }
}

/// Declares any_lexer's `JsonCToken`, a fieldless enum, so that verified
/// code can match on its variants.
#[verifier::external_type_specification]
pub struct ExJsonCToken(JsonCToken);

/// Maps a class of the outside tokenizer to the library's own.
pub(crate) fn token_kind(t: JsonCToken) -> (r: TokenKind)
    ensures
        r == kind_of(t),
{
    match t {
        JsonCToken::Space => TokenKind::Space,
        JsonCToken::LineComment => TokenKind::LineComment,
        JsonCToken::BlockComment => TokenKind::BlockComment,
        JsonCToken::String => TokenKind::String,
        JsonCToken::Number => TokenKind::Number,
        JsonCToken::Null => TokenKind::Null,
        JsonCToken::True => TokenKind::True,
        JsonCToken::False => TokenKind::False,
        JsonCToken::Punct => TokenKind::Punct,
        JsonCToken::Delim => TokenKind::Delim,
        JsonCToken::Unknown => TokenKind::Unknown,
    }
}

/// Relies on any_lexer's `JsonCLexer` iterator: it yields the tokens of
/// `text` left to right, each a non-empty span `TokenSpan::range` sliced on
/// character boundaries, the next starting where the last one ended, the
/// whole covering the text; the split depends on the text alone.
#[verifier::external_body]
pub(crate) fn tokenize(text: &str) -> (r: Vec<Token>)
    ensures
        r@ == jsonc_tokens(text@),
        tiles(text.spec_bytes(), r@),
{
    any_lexer::JsonCLexer::new(text).map(|(t, span)| Token {
        kind: token_kind(t),
        start: span.start(),
        end: span.end(),
    }).collect()
}

} // verus!
