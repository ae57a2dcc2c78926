//! The public conversions: a lazy sequence of slices, one borrowed or owned
//! text, or text appended to a buffer the caller holds.

use std::borrow::Cow;
use vstd::prelude::*;
use vstd::string::{StringExecFns, StringSliceAdditionalSpecFns};
use vstd::utf8::{decode_utf8, encode_utf8, encode_utf8_decode_utf8};
use crate::merge::{json_bytes, jsonc_pieces, pieces, pieces_from, ranges_bytes, JsonCToJsonIter};
use crate::policy::{is_kept, kept_from, nothing_dropped, token_bytes};
use crate::token::{jsonc_tokens, tiles, Token};

verus! {

/// The JSON that a text converts to.
pub open spec fn json_text(text: &str) -> Seq<char> {
    decode_utf8(json_bytes(text))
}

/// Encoding a concatenation concatenates the encodings.
pub proof fn lemma_encode_concat(a: Seq<char>, b: Seq<char>)
    ensures
        encode_utf8(a + b) == encode_utf8(a) + encode_utf8(b),
    decreases a.len(),
{
    if a.len() == 0 {
        assert(a + b =~= b);
        assert(encode_utf8(a) =~= seq![]);
        assert(encode_utf8(a) + encode_utf8(b) =~= encode_utf8(b));
    } else {
        assert((a + b).drop_first() =~= a.drop_first() + b);
        lemma_encode_concat(a.drop_first(), b);
        assert((a + b)[0] == a[0]);
        assert(encode_utf8(a + b) =~= encode_utf8(a) + encode_utf8(b));
    }
}

proof fn lemma_pieces_from_concat(bytes: Seq<u8>, toks: Seq<Token>, i: int, acc: Option<(int, int)>)
    requires
        tiles(bytes, toks),
        0 <= i <= toks.len(),
        acc matches Some(r) ==> 0 <= r.0 <= r.1 <= bytes.len(),
    ensures
        ranges_bytes(bytes, pieces_from(bytes, toks, i, acc)).flatten() == match acc {
            Some(r) => bytes.subrange(r.0, r.1),
            None => seq![],
        } + kept_from(bytes, toks, i),
    decreases toks.len() - i,
{
    let ps = pieces_from(bytes, toks, i, acc);
    if i == toks.len() {
        match acc {
            Some(r) => {
                assert(ranges_bytes(bytes, ps) =~= seq![bytes.subrange(r.0, r.1)]);
                ranges_bytes(bytes, ps).lemma_flatten_singleton();
                assert(bytes.subrange(r.0, r.1) + kept_from(bytes, toks, i) =~= bytes.subrange(r.0, r.1));
            },
            None => {
                assert(ranges_bytes(bytes, ps) =~= seq![]);
                assert(seq![] + kept_from(bytes, toks, i) =~= seq![]);
            },
        }
    } else if !is_kept(bytes, toks, i) {
        lemma_pieces_from_concat(bytes, toks, i + 1, acc);
    } else {
        let t = toks[i];
        let tb = token_bytes(bytes, t);
        let fresh = Some((t.start as int, t.end as int));
        match acc {
            None => {
                lemma_pieces_from_concat(bytes, toks, i + 1, fresh);
                assert(seq![] + kept_from(bytes, toks, i) =~= tb + kept_from(bytes, toks, i + 1));
            },
            Some(r) => {
                if r.1 == t.start {
                    lemma_pieces_from_concat(bytes, toks, i + 1, Some((r.0, t.end as int)));
                    assert(bytes.subrange(r.0, t.end as int) =~= bytes.subrange(r.0, r.1) + tb);
                    assert(bytes.subrange(r.0, r.1) + kept_from(bytes, toks, i) =~= bytes.subrange(
                        r.0,
                        t.end as int,
                    ) + kept_from(bytes, toks, i + 1));
                } else {
                    let rest = pieces_from(bytes, toks, i + 1, fresh);
                    lemma_pieces_from_concat(bytes, toks, i + 1, fresh);
                    assert(ps == seq![r] + rest);
                    let rb = ranges_bytes(bytes, ps);
                    assert(rb.drop_first() =~= ranges_bytes(bytes, rest));
                    assert(rb[0] == bytes.subrange(r.0, r.1));
                    assert(rb.flatten() == rb[0] + rb.drop_first().flatten());
                    assert(bytes.subrange(r.0, r.1) + kept_from(bytes, toks, i) =~= rb[0] + (tb
                        + kept_from(bytes, toks, i + 1)));
                }
            },
        }
    }
}

/// Joining the slices in order gives the same bytes as copying the kept
/// tokens one by one: merging touching ranges changes nothing but the
/// number of slices.
pub proof fn lemma_pieces_concat(bytes: Seq<u8>, toks: Seq<Token>)
    requires
        tiles(bytes, toks),
    ensures
        pieces(bytes, toks).flatten() == kept_from(bytes, toks, 0),
{
    lemma_pieces_from_concat(bytes, toks, 0, None);
    assert(seq![] + kept_from(bytes, toks, 0) =~= kept_from(bytes, toks, 0));
}

proof fn lemma_kept_run(bytes: Seq<u8>, toks: Seq<Token>, i: int)
    requires
        tiles(bytes, toks),
        1 <= i <= toks.len(),
        nothing_dropped(bytes, toks),
    ensures
        pieces_from(bytes, toks, i, Some((0int, toks[i - 1].end as int))) == seq![(0int, bytes.len() as int)],
    decreases toks.len() - i,
{
    if i < toks.len() {
        assert(is_kept(bytes, toks, i));
        assert(toks[i - 1].end == toks[i].start);
        lemma_kept_run(bytes, toks, i + 1);
    }
}

/// When no token is dropped, the whole text is one slice (or, when it is
/// empty, there is none).
pub proof fn lemma_nothing_dropped_whole(bytes: Seq<u8>, toks: Seq<Token>)
    requires
        tiles(bytes, toks),
        nothing_dropped(bytes, toks),
    ensures
        bytes.len() == 0 ==> pieces(bytes, toks).len() == 0,
        bytes.len() > 0 ==> pieces(bytes, toks) == seq![bytes],
{
    if toks.len() > 0 {
        assert(is_kept(bytes, toks, 0));
        lemma_kept_run(bytes, toks, 1);
        assert(pieces_from(bytes, toks, 0, None) == seq![(0int, bytes.len() as int)]);
        assert(bytes.subrange(0, bytes.len() as int) =~= bytes);
        assert(pieces(bytes, toks) =~= seq![bytes]);
    } else {
        assert(pieces(bytes, toks) =~= seq![]);
    }
}

/// The slices of `jsonc` that make up its JSON, in order and lazily.
pub fn jsonc_to_json_iter(jsonc: &str) -> (r: JsonCToJsonIter<'_>)
    ensures
        r.wf(),
        r.source() == jsonc,
        r.remaining() == jsonc_pieces(jsonc),
        tiles(jsonc.spec_bytes(), jsonc_tokens(jsonc@)),
{
    JsonCToJsonIter::new(jsonc)
}

/// Appends the remaining slices of `iter` to `json`.
fn append_remaining(iter: &mut JsonCToJsonIter, json: &mut String)
    requires
        old(iter).wf(),
    ensures
        final(json)@ == old(json)@ + decode_utf8(old(iter).remaining().flatten()),
        encode_utf8(decode_utf8(old(iter).remaining().flatten())) == old(iter).remaining().flatten(),
{
    let ghost all = iter.remaining();
    let ghost done: Seq<Seq<u8>> = seq![];
    let ghost added: Seq<char> = seq![];
    proof {
        assert(done + all =~= all);
        assert(json@ + added =~= json@);
        assert(encode_utf8(added) =~= seq![]);
    }
    loop
        invariant
            iter.wf(),
            done + iter.remaining() == all,
            json@ == old(json)@ + added,
            encode_utf8(added) == done.flatten(),
        ensures
            json@ == old(json)@ + added,
            encode_utf8(added) == all.flatten(),
        decreases iter.remaining().len(),
    {
        let ghost before = iter.remaining();
        match iter.next() {
            Some(part) => {
                proof {
                    lemma_encode_concat(added, part@);
                    done.lemma_flatten_push(before[0]);
                    assert(done.push(before[0]) + before.drop_first() =~= done + before);
                    done = done.push(before[0]);
                    added = added + part@;
                }
                json.append(part);
                proof {
                    assert(json@ =~= old(json)@ + added);
                }
            },
            None => {
                proof {
                    assert(done + before =~= done);
                }
                break;
            },
        }
    }
    proof {
        encode_utf8_decode_utf8(added);
    }
}

/// Converts `jsonc` to JSON: comments and redundant commas are removed and
/// everything else is kept. The text itself is handed back, borrowed, when
/// its JSON is one slice of it; otherwise the slices are copied into a new
/// string.
pub fn jsonc_to_json(jsonc: &str) -> (r: Cow<'_, str>)
    ensures
        r@ == json_text(jsonc),
        encode_utf8(r@) == json_bytes(jsonc),
        encode_utf8(r@) == jsonc_pieces(jsonc).flatten(),
        (r matches Cow::Borrowed(_)) <==> jsonc_pieces(jsonc).len() <= 1,
        nothing_dropped(jsonc.spec_bytes(), jsonc_tokens(jsonc@)) ==> {
            &&& r matches Cow::Borrowed(_)
            &&& r@ == jsonc@
        },
{
    let mut iter = JsonCToJsonIter::new(jsonc);
    let ghost all = jsonc_pieces(jsonc);
    proof {
        lemma_pieces_concat(jsonc.spec_bytes(), jsonc_tokens(jsonc@));
        if nothing_dropped(jsonc.spec_bytes(), jsonc_tokens(jsonc@)) {
            lemma_nothing_dropped_whole(jsonc.spec_bytes(), jsonc_tokens(jsonc@));
        }
        encode_utf8_decode_utf8(jsonc@);
    }
    let first = match iter.next() {
        Some(first) => first,
        None => {
            proof {
                reveal_strlit("");
                assert(all.flatten() =~= seq![]);
                encode_utf8_decode_utf8(""@);
                assert(encode_utf8(""@) =~= seq![]);
            }
            return Cow::Borrowed("");
        },
    };
    proof {
        encode_utf8_decode_utf8(first@);
    }
    let second = match iter.next() {
        Some(second) => second,
        None => {
            proof {
                all.lemma_flatten_singleton();
                assert(all =~= seq![all[0]]);
            }
            return Cow::Borrowed(first);
        },
    };
    let mut json = String::new();
    json.append(first);
    json.append(second);
    append_remaining(&mut iter, &mut json);
    proof {
        let c = decode_utf8(all.drop_first().drop_first().flatten());
        lemma_encode_concat(first@ + second@, c);
        lemma_encode_concat(first@, second@);
        assert(all.drop_first().flatten() == all.drop_first()[0] + all.drop_first().drop_first().flatten());
        assert(encode_utf8(json@) =~= all.flatten());
        encode_utf8_decode_utf8(json@);
    }
    Cow::Owned(json)
}

/// Appends the JSON of `jsonc` to `json`, which is not cleared first.
pub fn jsonc_to_json_into(jsonc: &str, json: &mut String)
    ensures
        final(json)@ == old(json)@ + json_text(jsonc),
{
    let mut iter = JsonCToJsonIter::new(jsonc);
    append_remaining(&mut iter, json);
    proof {
        lemma_pieces_concat(jsonc.spec_bytes(), jsonc_tokens(jsonc@));
    }
}

} // verus!
