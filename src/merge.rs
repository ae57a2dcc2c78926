//! The extend-or-flush reduction: consecutive kept tokens whose byte ranges
//! touch are merged into one output range, and the ranges are handed out
//! one at a time as slices of the text.

use vstd::prelude::*;
use vstd::string::StringSliceAdditionalSpecFns;
use vstd::utf8::is_char_boundary;
use crate::policy::{is_kept, kept_from, token_kept};
use crate::token::{jsonc_tokens, tiles, tokenize, Token};

verus! {

/// The output ranges that the tokens from `i` on produce, when the
/// accumulator holds `acc` (nothing yet, or a range still open to
/// extension).
pub open spec fn pieces_from(
    bytes: Seq<u8>,
    toks: Seq<Token>,
    i: int,
    acc: Option<(int, int)>,
) -> Seq<(int, int)>
    decreases toks.len() - i,
{
    if i >= toks.len() {
        match acc {
            Some(r) => seq![r],
            None => seq![],
        }
    } else if !is_kept(bytes, toks, i) {
        pieces_from(bytes, toks, i + 1, acc)
    } else {
        let t = toks[i];
        match acc {
            None => pieces_from(bytes, toks, i + 1, Some((t.start as int, t.end as int))),
            Some(r) => if r.1 == t.start {
                pieces_from(bytes, toks, i + 1, Some((r.0, t.end as int)))
            } else {
                seq![r] + pieces_from(bytes, toks, i + 1, Some((t.start as int, t.end as int)))
            },
        }
    }
}

/// The bytes of each range, in order.
pub open spec fn ranges_bytes(bytes: Seq<u8>, rs: Seq<(int, int)>) -> Seq<Seq<u8>> {
    rs.map_values(|r: (int, int)| bytes.subrange(r.0, r.1))
}

/// The output slices, as bytes, that a token sequence of `bytes` produces.
pub open spec fn pieces(bytes: Seq<u8>, toks: Seq<Token>) -> Seq<Seq<u8>> {
    ranges_bytes(bytes, pieces_from(bytes, toks, 0, None))
}

/// The output slices, as bytes, of a text.
pub open spec fn jsonc_pieces(text: &str) -> Seq<Seq<u8>> {
    pieces(text.spec_bytes(), jsonc_tokens(text@))
}

/// The JSON that a text converts to, as bytes: its kept tokens in order.
pub open spec fn json_bytes(text: &str) -> Seq<u8> {
    kept_from(text.spec_bytes(), jsonc_tokens(text@), 0)
}

/// Skipping dropped tokens leaves the output as it is.
proof fn lemma_skip_dropped(bytes: Seq<u8>, toks: Seq<Token>, i: int, k: int, acc: Option<(int, int)>)
    requires
        i <= k <= toks.len(),
        forall|m: int| i <= m < k ==> !#[trigger] is_kept(bytes, toks, m),
    ensures
        pieces_from(bytes, toks, i, acc) == pieces_from(bytes, toks, k, acc),
    decreases k - i,
{
    if i < k {
        lemma_skip_dropped(bytes, toks, i + 1, k, acc);
    }
}

/// Once the accumulator holds a range, at least one slice follows.
proof fn lemma_pieces_nonempty(bytes: Seq<u8>, toks: Seq<Token>, i: int, acc: Option<(int, int)>)
    requires
        acc is Some,
    ensures
        pieces_from(bytes, toks, i, acc).len() > 0,
    decreases toks.len() - i,
{
    if i < toks.len() {
        if is_kept(bytes, toks, i) {
            let t = toks[i];
            let r = acc->0;
            if r.1 == t.start {
                lemma_pieces_nonempty(bytes, toks, i + 1, Some((r.0, t.end as int)));
            } else {
                lemma_pieces_nonempty(bytes, toks, i + 1, Some((t.start as int, t.end as int)));
            }
        } else {
            lemma_pieces_nonempty(bytes, toks, i + 1, acc);
        }
    }
}

/// Relies on std's `Index<Range<usize>>` for `str`: the bytes from `start`
/// to `end`, which it returns when both are character boundaries in order.
#[verifier::external_body]
fn str_slice<'a>(s: &'a str, start: usize, end: usize) -> (r: &'a str)
    requires
        start <= end <= s.spec_bytes().len(),
        is_char_boundary(s.spec_bytes(), start as int),
        is_char_boundary(s.spec_bytes(), end as int),
    ensures
        r.spec_bytes() == s.spec_bytes().subrange(start as int, end as int),
{
    &s[start..end]
}

/// A lazy, single-pass sequence of the slices of a text that together make
/// up its JSON: each slice is a maximal run of kept tokens.
pub struct JsonCToJsonIter<'a> {
    text: &'a str,
    tokens: Vec<Token>,
    pos: usize,
    next: Option<(usize, usize)>,
}

impl<'a> JsonCToJsonIter<'a> {
    /// The range held back for the next slice, as integers.
    closed spec fn held(&self) -> Option<(int, int)> {
        match self.next {
            Some(r) => Some((r.0 as int, r.1 as int)),
            None => None,
        }
    }

    /// The text that the slices are taken from.
    pub closed spec fn source(&self) -> &'a str {
        self.text
    }

    /// The tokens split the text, and the range held back for the next
    /// slice lies on character boundaries.
    pub closed spec fn wf(&self) -> bool {
        let bytes = self.text.spec_bytes();
        &&& tiles(bytes, self.tokens@)
        &&& self.pos <= self.tokens@.len()
        &&& self.next matches Some(r) ==> {
            &&& r.0 <= r.1 <= bytes.len()
            &&& is_char_boundary(bytes, r.0 as int)
            &&& is_char_boundary(bytes, r.1 as int)
        }
    }

    /// The slices not yet handed out, as bytes.
    pub closed spec fn remaining(&self) -> Seq<Seq<u8>> {
        let bytes = self.text.spec_bytes();
        ranges_bytes(bytes, pieces_from(bytes, self.tokens@, self.pos as int, self.held()))
    }

    /// The slices of `text` for the tokens that split it.
    pub fn from_tokens(text: &'a str, tokens: Vec<Token>) -> (r: Self)
        requires
            tiles(text.spec_bytes(), tokens@),
        ensures
            r.wf(),
            r.source() == text,
            r.remaining() == pieces(text.spec_bytes(), tokens@),
    {
        JsonCToJsonIter { text, tokens, pos: 0, next: None }
    }

    /// The slices of `text`.
    pub fn new(text: &'a str) -> (r: Self)
        ensures
            r.wf(),
            r.source() == text,
            r.remaining() == jsonc_pieces(text),
            tiles(text.spec_bytes(), jsonc_tokens(text@)),
    {
        let tokens = tokenize(text);
        Self::from_tokens(text, tokens)
    }

    /// Moves past the dropped tokens and the next kept one, and returns the
    /// latter's range.
    fn next_valid_json_token(&mut self) -> (r: Option<(usize, usize)>)
        requires
            old(self).wf(),
        ensures
            final(self).wf(),
            final(self).text == old(self).text,
            final(self).tokens@ == old(self).tokens@,
            final(self).next == old(self).next,
            old(self).pos <= final(self).pos,
            forall|m: int|
                old(self).pos <= m < final(self).pos - 1 ==> !#[trigger] is_kept(
                    old(self).text.spec_bytes(),
                    old(self).tokens@,
                    m,
                ),
            match r {
                None => {
                    &&& final(self).pos == final(self).tokens@.len()
                    &&& old(self).pos < final(self).pos ==> !is_kept(
                        old(self).text.spec_bytes(),
                        old(self).tokens@,
                        final(self).pos - 1,
                    )
                },
                Some(s) => {
                    let t = old(self).tokens@[final(self).pos - 1];
                    &&& old(self).pos < final(self).pos
                    &&& is_kept(old(self).text.spec_bytes(), old(self).tokens@, final(self).pos - 1)
                    &&& s == (t.start, t.end)
                },
            },
    {
        let n = self.tokens.len();
        while self.pos < n
            invariant
                self.wf(),
                n == self.tokens@.len(),
                self.text == old(self).text,
                self.tokens@ == old(self).tokens@,
                self.next == old(self).next,
                old(self).pos <= self.pos,
                forall|m: int|
                    old(self).pos <= m < self.pos ==> !#[trigger] is_kept(
                        old(self).text.spec_bytes(),
                        old(self).tokens@,
                        m,
                    ),
            decreases n - self.pos,
        {
            let i = self.pos;
            self.pos = i + 1;
            if token_kept(self.text, &self.tokens, i) {
                let t = &self.tokens[i];
                return Some((t.start, t.end));
            }
        }
        None
    }

    /// Hands out the next slice, or `None` once all have been.
    pub fn next(&mut self) -> (r: Option<&'a str>)
        requires
            old(self).wf(),
        ensures
            final(self).wf(),
            final(self).source() == old(self).source(),
            old(self).remaining().len() == 0 ==> r is None && final(self).remaining().len() == 0,
            old(self).remaining().len() > 0 ==> {
                &&& r matches Some(p)
                &&& p.spec_bytes() == old(self).remaining()[0]
                &&& final(self).remaining() == old(self).remaining().drop_first()
            },
    {
        let ghost bytes = self.text.spec_bytes();
        let ghost toks = self.tokens@;
        let ghost start = pieces_from(bytes, toks, self.pos as int, self.held());
        let mut span = match self.next.take() {
            Some(span) => span,
            None => {
                let ghost p0 = self.pos as int;
                match self.next_valid_json_token() {
                    Some(span) => {
                        proof {
                            lemma_skip_dropped(bytes, toks, p0, self.pos - 1, None);
                        }
                        span
                    },
                    None => {
                        proof {
                            lemma_skip_dropped(bytes, toks, p0, self.pos as int, None);
                            assert(self.remaining() =~= seq![]);
                        }
                        return None;
                    },
                }
            },
        };
        proof {
            lemma_pieces_nonempty(bytes, toks, self.pos as int, Some((span.0 as int, span.1 as int)));
        }
        loop
            invariant_except_break
                self.next is None,
                pieces_from(bytes, toks, self.pos as int, Some((span.0 as int, span.1 as int))) == start,
            invariant
                self.wf(),
                self.text == old(self).text,
                self.text.spec_bytes() == bytes,
                self.tokens@ == toks,
                span.0 <= span.1 <= bytes.len(),
                is_char_boundary(bytes, span.0 as int),
                is_char_boundary(bytes, span.1 as int),
            ensures
                start == seq![(span.0 as int, span.1 as int)] + pieces_from(bytes, toks, self.pos as int, self.held()),
            decreases toks.len() - self.pos,
        {
            let ghost p0 = self.pos as int;
            match self.next_valid_json_token() {
                Some(next) => {
                    proof {
                        lemma_skip_dropped(bytes, toks, p0, self.pos - 1, Some((span.0 as int, span.1 as int)));
                    }
                    if span.1 == next.0 {
                        span = (span.0, next.1);
                    } else {
                        self.next = Some(next);
                        break;
                    }
                },
                None => {
                    proof {
                        lemma_skip_dropped(bytes, toks, p0, self.pos as int, Some((span.0 as int, span.1 as int)));
                        assert(pieces_from(bytes, toks, self.pos as int, self.held()) =~= seq![]);
                        assert(start =~= seq![(span.0 as int, span.1 as int)] + seq![]);
                    }
                    break;
                },
            }
        }
        proof {
            assert(self.remaining() =~= ranges_bytes(bytes, start).drop_first());
        }
        Some(str_slice(self.text, span.0, span.1))
    }
}

} // verus!
