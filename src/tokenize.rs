use vstd::prelude::*;
use vstd::string::StringSliceAdditionalSpecFns;
use vstd::utf8::*;

use crate::category::{category_of, classify};
use crate::coalesce::{
    all_ok, coalesce, coalesced, contiguous, covers, lemma_coalesced_shape, lemma_repaired_shape,
    piece_ok, repair, repaired, runs_well_formed, span, span_text, with_place, Piece,
};
use crate::segment::{placed_words, places, sentences_of, word_positions, word_runs, words_tile};
use crate::token::{continues, opens, Place, Position, Token};

verus! {

/// Why a text could not be tokenized.
#[derive(Clone, Copy, Debug, PartialEq, Eq, Structural)]
pub enum TokenizeError {
    /// The word at this byte offset meets no category's test.
    Unclassifiable(usize),
}

/// The pieces of classified words, before any merging.
pub open spec fn classified<'a>(words: Seq<(Position, &'a str)>) -> Seq<Piece> {
    Seq::new(
        words.len(),
        |i: int|
            Piece {
                category: category_of(words[i].1@)->0,
                place: words[i].0.spec_place(),
                start: words[i].0.spec_index(),
                end: (words[i].0.spec_index() + words[i].1.spec_bytes().len()) as usize,
            },
    )
}

/// Coalescing, boundary repair, and coalescing again.
pub open spec fn tokenized(bytes: Seq<u8>, pieces: Seq<Piece>) -> Seq<Piece> {
    coalesced(bytes, repaired(coalesced(bytes, pieces)))
}

/// `v` holds, in order, one token for each piece: its place and start, its
/// category, and the bytes it spans.
pub open spec fn renders<'a>(bytes: Seq<u8>, q: Seq<Piece>, v: Seq<(Position, Token<'a>)>) -> bool {
    &&& v.len() == q.len()
    &&& forall|i: int| 0 <= i < v.len() ==> {
        &&& (#[trigger] v[i]).0 == Position::spec_new(q[i].place, q[i].start)
        &&& v[i].1.spec_category() == q[i].category
        &&& v[i].1.spec_text().spec_bytes() == bytes.subrange(q[i].start as int, q[i].end as int)
    }
}

/// The tokens' bytes, one token after another.
pub open spec fn joined<'a>(v: Seq<(Position, Token<'a>)>) -> Seq<u8>
    decreases v.len(),
{
    if v.len() == 0 {
        seq![]
    } else {
        joined(v.drop_last()) + v.last().1.spec_text().spec_bytes()
    }
}

pub open spec fn token_places<'a>(v: Seq<(Position, Token<'a>)>) -> Seq<Place> {
    Seq::new(v.len(), |i: int| v[i].0.spec_place())
}

/// Each token's category is the one its own text gives.
pub open spec fn categories_hold<'a>(v: Seq<(Position, Token<'a>)>) -> bool {
    forall|i: int| 0 <= i < v.len() ==> category_of((#[trigger] v[i]).1.spec_text()@) == Some(v[i].1.spec_category())
}

/// A word's offset is a character boundary of the text.
proof fn lemma_word_start(bytes: Seq<u8>, w: &str, start: int)
    requires
        valid_utf8(bytes),
        w.spec_bytes().len() > 0,
        0 <= start,
        start + w.spec_bytes().len() <= bytes.len(),
        w.spec_bytes() == bytes.subrange(start, start + w.spec_bytes().len()),
    ensures
        is_char_boundary(bytes, start),
        span_text(bytes, start, start + w.spec_bytes().len()) == w@,
{
    broadcast use group_utf8_lib;

    let wb = w.spec_bytes();
    assert(valid_utf8(wb));
    assert(valid_first_scalar(wb));
    assert(bytes[start] == wb[0]);
    assert(is_char_boundary(bytes, start) <==> (is_leading_byte_width_1(bytes[start])
        || is_leading_byte_width_2(bytes[start]) || is_leading_byte_width_3(bytes[start])
        || is_leading_byte_width_4(bytes[start])));
}

/// The words classified one by one, in order.
fn classify_words<'a>(text: &'a str, words: &Vec<(Position, &'a str)>) -> (r: Result<Vec<Piece>, TokenizeError>)
    requires
        words_tile(text, words@),
    ensures
        r is Err <==> exists|i: int| 0 <= i < words@.len() && category_of((#[trigger] words@[i]).1@) is None,
        r matches Err(TokenizeError::Unclassifiable(k)) ==> exists|i: int|
            0 <= i < words@.len() && (#[trigger] words@[i]).0.spec_index() == k && category_of(words@[i].1@) is None
                && forall|j: int| 0 <= j < i ==> category_of((#[trigger] words@[j]).1@) is Some,
        r matches Ok(v) ==> v@ == classified(words@) && all_ok(text.spec_bytes(), v@)
            && covers(v@, 0, text.spec_bytes().len() as int),
{
    let ghost b = text.spec_bytes();
    proof {
        broadcast use group_utf8_lib;

        assert(valid_utf8(b));
    }
    let mut pieces: Vec<Piece> = Vec::new();
    let mut i: usize = 0;
    while i < words.len()
        invariant
            b == text.spec_bytes(),
            valid_utf8(b),
            words_tile(text, words@),
            0 <= i <= words@.len(),
            pieces@ == classified(words@).take(i as int),
            forall|j: int| 0 <= j < i ==> (#[trigger] category_of(words@[j].1@)) is Some,
            all_ok(b, pieces@),
        decreases words.len() - i,
    {
        let (pos, w) = words[i];
        assert(words@[i as int].1.spec_bytes().len() > 0);
        let c = match classify(w) {
            Some(c) => c,
            None => {
                return Err(TokenizeError::Unclassifiable(pos.index()));
            },
        };
        let start = pos.index();
        let end = start + w.len();
        let p = Piece { category: c, place: pos.place(), start, end };
        proof {
            lemma_word_start(b, w, start as int);
            if i + 1 < words@.len() {
                assert(words@[i + 1].1.spec_bytes().len() > 0);
                lemma_word_start(b, words@[i + 1].1, end as int);
            } else {
                is_char_boundary_start_end_of_seq(b);
            }
            assert(piece_ok(b, p));
        }
        let ghost before = pieces@;
        pieces.push(p);
        proof {
            assert(pieces@ =~= classified(words@).take(i + 1));
            assert forall|j: int| 0 <= j < pieces@.len() implies #[trigger] piece_ok(b, pieces@[j]) by {
                if j < i {
                    assert(pieces@[j] == before[j]);
                }
            }
        }
        i = i + 1;
    }
    proof {
        let s0 = classified(words@);
        assert(pieces@ =~= s0);
        assert forall|j: int| 0 < j < s0.len() implies #[trigger] s0[j].start == s0[j - 1].end by {
            assert(words@[j - 1].1.spec_bytes().len() > 0);
        }
        if s0.len() > 0 {
            assert(words@.last().1.spec_bytes().len() > 0);
        }
    }
    Ok(pieces)
}

/// The two coalescing passes with the boundary repair between them.
fn merge_runs(text: &str, pieces: &Vec<Piece>) -> (r: Vec<Piece>)
    requires
        all_ok(text.spec_bytes(), pieces@),
        covers(pieces@, 0, text.spec_bytes().len() as int),
        runs_well_formed(pieces@),
    ensures
        r@ == tokenized(text.spec_bytes(), pieces@),
        all_ok(text.spec_bytes(), r@),
        covers(r@, 0, text.spec_bytes().len() as int),
        runs_well_formed(r@),
{
    let ghost b = text.spec_bytes();
    let ghost s0 = pieces@;
    proof {
        lemma_coalesced_shape(b, s0);
    }
    let first = match coalesce(text, pieces) {
        Ok(v) => v,
        Err(_) => {
            proof {
                assert(false);
            }
            Vec::new()
        },
    };
    let fixed = repair(&first);
    let ghost s1 = coalesced(b, s0);
    proof {
        lemma_repaired_shape(s1);
        let s2 = repaired(s1);
        assert(all_ok(b, s2)) by {
            assert forall|j: int| 0 <= j < s2.len() implies #[trigger] piece_ok(b, s2[j]) by {
                assert(s2[j] == with_place(s1[j], s2[j].place));
                assert(piece_ok(b, s1[j]));
            }
        }
        assert(contiguous(s2)) by {
            assert forall|j: int| 0 < j < s2.len() implies #[trigger] s2[j].start == s2[j - 1].end by {
                assert(s2[j] == with_place(s1[j], s2[j].place));
                assert(s2[j - 1] == with_place(s1[j - 1], s2[j - 1].place));
            }
        }
        lemma_coalesced_shape(b, s2);
        if s2.len() > 0 {
            assert(s2[0] == with_place(s1[0], s2[0].place));
            assert(s2.last() == with_place(s1.last(), s2.last().place));
        }
    }
    match coalesce(text, &fixed) {
        Ok(v) => v,
        Err(_) => {
            proof {
                assert(false);
            }
            Vec::new()
        },
    }
}

/// One token for each piece, borrowing its span of `text`.
fn render<'a>(text: &'a str, last: &Vec<Piece>) -> (r: Vec<(Position, Token<'a>)>)
    requires
        all_ok(text.spec_bytes(), last@),
        covers(last@, 0, text.spec_bytes().len() as int),
    ensures
        renders(text.spec_bytes(), last@, r@),
        joined(r@) == text.spec_bytes(),
        categories_hold(r@),
        forall|j: int| 0 <= j < r@.len() ==> #[trigger] token_places(r@)[j] == last@[j].place,
{
    let ghost b = text.spec_bytes();
    let ghost q = last@;
    let mut out: Vec<(Position, Token<'a>)> = Vec::new();
    let mut k: usize = 0;
    while k < last.len()
        invariant
            b == text.spec_bytes(),
            last@ == q,
            all_ok(b, q),
            covers(q, 0, b.len() as int),
            0 <= k <= q.len(),
            renders(b, q.take(k as int), out@),
            joined(out@) == b.subrange(0, if k == 0 { 0 } else { q[k - 1].end as int }),
            categories_hold(out@),
        decreases last.len() - k,
    {
        let p = last[k];
        assert(piece_ok(b, p));
        let piece_text = span(text, p.start, p.end);
        let item = (Position::new(p.place, p.start), Token::new(p.category, piece_text));
        let ghost before = out@;
        out.push(item);
        proof {
            assert(out@.drop_last() =~= before);
            let e0: int = if k == 0 { 0 } else { q[k - 1].end as int };
            assert(p.start == e0);
            assert(b.subrange(0, e0) + b.subrange(e0, p.end as int) =~= b.subrange(0, p.end as int));
            assert forall|j: int| 0 <= j < out@.len() implies {
                &&& (#[trigger] out@[j]).0 == Position::spec_new(q.take(k + 1)[j].place, q.take(k + 1)[j].start)
                &&& out@[j].1.spec_category() == q.take(k + 1)[j].category
                &&& out@[j].1.spec_text().spec_bytes() == b.subrange(q.take(k + 1)[j].start as int, q.take(k + 1)[j].end as int)
            } by {
                if j < k {
                    assert(out@[j] == before[j]);
                    assert(q.take(k + 1)[j] == q.take(k as int)[j]);
                }
            }
            assert forall|j: int| 0 <= j < out@.len() implies category_of((#[trigger] out@[j]).1.spec_text()@) == Some(out@[j].1.spec_category()) by {
                if j < k {
                    assert(out@[j] == before[j]);
                }
            }
        }
        k = k + 1;
    }
    proof {
        assert(q.take(q.len() as int) =~= q);
        assert forall|j: int| 0 <= j < out@.len() implies #[trigger] token_places(out@)[j] == q[j].place by {
            assert(out@[j].0 == Position::spec_new(q[j].place, q[j].start));
        }
        assert(b =~= b.subrange(0, b.len() as int));
    }
    out
}

/// Classifies words that tile `text` and merges them into tokens: a first
/// coalescing pass, the boundary repair, and a second coalescing pass.
///
/// Fails exactly when some word meets no category's test, naming the first
/// such word's offset.
pub fn tokens_from_words<'a>(text: &'a str, words: &Vec<(Position, &'a str)>) -> (r: Result<
    Vec<(Position, Token<'a>)>,
    TokenizeError,
>)
    requires
        words_tile(text, words@),
        word_runs(places(words@)),
    ensures
        r is Err <==> exists|i: int| 0 <= i < words@.len() && category_of((#[trigger] words@[i]).1@) is None,
        r matches Err(TokenizeError::Unclassifiable(k)) ==> exists|i: int|
            0 <= i < words@.len() && (#[trigger] words@[i]).0.spec_index() == k && category_of(words@[i].1@) is None
                && forall|j: int| 0 <= j < i ==> category_of((#[trigger] words@[j]).1@) is Some,
        r matches Ok(v) ==> renders(text.spec_bytes(), tokenized(text.spec_bytes(), classified(words@)), v@),
        r matches Ok(v) ==> joined(v@) == text.spec_bytes(),
        r matches Ok(v) ==> categories_hold(v@),
        r matches Ok(v) ==> word_runs(token_places(v@)),
{
    let pieces = classify_words(text, words)?;
    proof {
        let s0 = pieces@;
        assert forall|j: int| 0 < j < s0.len() implies #[trigger] continues(s0[j].place) == opens(s0[j - 1].place) by {
            assert(places(words@)[j] == s0[j].place);
            assert(places(words@)[j - 1] == s0[j - 1].place);
        }
        if s0.len() > 0 {
            assert(places(words@)[0] == s0[0].place);
            assert(places(words@).last() == s0.last().place);
        }
    }
    let last = merge_runs(text, &pieces);
    let out = render(text, &last);
    proof {
        let tp = token_places(out@);
        let q = last@;
        assert forall|j: int| 0 < j < tp.len() implies #[trigger] continues(tp[j]) == opens(tp[j - 1]) by {
            assert(tp[j] == q[j].place && tp[j - 1] == q[j - 1].place);
        }
        if tp.len() > 0 {
            assert(tp[0] == q[0].place);
            assert(tp.last() == q.last().place);
        }
    }
    Ok(out)
}

/// `v` is what tokenizing `text` gives: the tokens that `tokens_from_words`
/// makes of the text's Unicode word segments, each with its place in its
/// sentence.
pub open spec fn tokenizes<'a>(text: &'a str, v: Seq<(Position, Token<'a>)>) -> bool {
    exists|w: Seq<(Position, &'a str)>| {
        &&& words_tile(text, w)
        &&& w.len() == placed_words(sentences_of(text@)).len()
        &&& forall|i: int| 0 <= i < w.len() ==> (#[trigger] w[i]).0.spec_place() == placed_words(sentences_of(text@))[i].0
            && w[i].1@ == placed_words(sentences_of(text@))[i].1
        &&& renders(text.spec_bytes(), tokenized(text.spec_bytes(), classified(w)), v)
    }
}

/// Splits `text` into classified, position-tagged tokens.
///
/// The tokens come from the Unicode sentence and word segments of the text,
/// classified and then merged by `tokens_from_words`. Fails exactly when
/// some word segment meets no category's test. On success the tokens'
/// bytes, one after another, are exactly the text's bytes, each token's
/// category is the one its own text gives, and their places form whole runs.
pub fn token_positions<'a>(text: &'a str) -> (r: Result<Vec<(Position, Token<'a>)>, TokenizeError>)
    ensures
        r is Err <==> exists|i: int| 0 <= i < placed_words(sentences_of(text@)).len()
            && category_of((#[trigger] placed_words(sentences_of(text@))[i]).1) is None,
        r matches Ok(v) ==> joined(v@) == text.spec_bytes(),
        r matches Ok(v) ==> categories_hold(v@),
        r matches Ok(v) ==> word_runs(token_places(v@)),
        r matches Ok(v) ==> tokenizes(text, v@),
{
    let words = word_positions(text);
    let r = tokens_from_words(text, &words);
    proof {
        let pw = placed_words(sentences_of(text@));
        if r is Err {
            let i = choose|i: int| 0 <= i < words@.len() && category_of((#[trigger] words@[i]).1@) is None;
            assert(category_of(pw[i].1) is None);
        }
        if exists|i: int| 0 <= i < pw.len() && category_of((#[trigger] pw[i]).1) is None {
            let i = choose|i: int| 0 <= i < pw.len() && category_of((#[trigger] pw[i]).1) is None;
            assert(category_of(words@[i].1@) is None);
        }
    }
    r
}

} // verus!
