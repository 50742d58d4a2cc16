use unicode_segmentation::UnicodeSegmentation;
use vstd::prelude::*;
use vstd::string::StringSliceAdditionalSpecFns;

use crate::token::{continues, opens, Place, Position};

verus! {

/// The sentences of a text by the Unicode sentence-boundary rules (UAX #29).
pub uninterp spec fn sentences_of(s: Seq<char>) -> Seq<Seq<char>>;

/// The words of a text by the Unicode word-boundary rules (UAX #29).
pub uninterp spec fn words_of(s: Seq<char>) -> Seq<Seq<char>>;

/// Non-empty pieces of `s`, each with its byte offset, that follow one another
/// and together make up `s`.
pub open spec fn tiles_text<'a>(s: &str, r: Seq<(usize, &'a str)>) -> bool {
    let b = s.spec_bytes();
    &&& forall|i: int| 0 <= i < r.len() ==> {
        &&& r[i].1.spec_bytes().len() > 0
        &&& r[i].0 + (#[trigger] r[i].1.spec_bytes()).len() <= b.len()
        &&& r[i].0 + r[i].1.spec_bytes().len() <= usize::MAX
        &&& r[i].1.spec_bytes() == b.subrange(r[i].0 as int, r[i].0 + r[i].1.spec_bytes().len())
    }
    &&& forall|i: int| 0 <= i < r.len() - 1 ==> r[i + 1].0 == r[i].0 + (#[trigger] r[i].1.spec_bytes()).len()
    &&& r.len() == 0 ==> b.len() == 0
    &&& r.len() > 0 ==> r[0].0 == 0 && r.last().0 + r.last().1.spec_bytes().len() == b.len()
}

/// Relies on unicode-segmentation's `split_sentence_bound_indices`: the
/// sentences of the text in order, none empty, with their byte offsets; their
/// concatenation is the text.
#[verifier::external_body]
fn sentence_bounds<'a>(s: &'a str) -> (r: Vec<(usize, &'a str)>)
    ensures
        tiles_text(s, r@),
        r@.len() == sentences_of(s@).len(),
        forall|i: int| 0 <= i < r@.len() ==> (#[trigger] r@[i]).1@ == sentences_of(s@)[i],
{
    s.split_sentence_bound_indices().collect()
}

/// Relies on unicode-segmentation's `split_word_bound_indices`: the words of
/// the text in order, none empty, with their byte offsets; their
/// concatenation is the text.
#[verifier::external_body]
fn word_bounds<'a>(s: &'a str) -> (r: Vec<(usize, &'a str)>)
    ensures
        tiles_text(s, r@),
        r@.len() == words_of(s@).len(),
        forall|i: int| 0 <= i < r@.len() ==> (#[trigger] r@[i]).1@ == words_of(s@)[i],
{
    s.split_word_bound_indices().collect()
}

/// The place of the `j`-th of `n` words of a sentence.
pub open spec fn place_at(j: int, n: int) -> Place {
    if n == 1 {
        Place::Only
    } else if j == 0 {
        Place::First
    } else if j == n - 1 {
        Place::Last
    } else {
        Place::Middle
    }
}

/// The words of each sentence with their places, one sentence after another.
pub open spec fn placed_words(sentences: Seq<Seq<char>>) -> Seq<(Place, Seq<char>)>
    decreases sentences.len(),
{
    if sentences.len() == 0 {
        seq![]
    } else {
        let w = words_of(sentences.last());
        placed_words(sentences.drop_last()) + Seq::new(w.len(), |j: int| (place_at(j, w.len() as int), w[j]))
    }
}

/// Non-empty words that tile the bytes `[0, end)` of `text`, each at the
/// offset its position gives.
pub open spec fn words_tile_to<'a>(text: &str, w: Seq<(Position, &'a str)>, end: int) -> bool {
    let b = text.spec_bytes();
    &&& forall|i: int| 0 <= i < w.len() ==> {
        &&& w[i].1.spec_bytes().len() > 0
        &&& w[i].0.spec_index() + (#[trigger] w[i].1.spec_bytes()).len() <= b.len()
        &&& w[i].1.spec_bytes() == b.subrange(w[i].0.spec_index() as int, w[i].0.spec_index() + w[i].1.spec_bytes().len())
    }
    &&& forall|i: int| 0 <= i < w.len() - 1 ==> w[i + 1].0.spec_index() == w[i].0.spec_index() + (#[trigger] w[i].1.spec_bytes()).len()
    &&& w.len() == 0 ==> end == 0
    &&& w.len() > 0 ==> w[0].0.spec_index() == 0 && w.last().0.spec_index() + w.last().1.spec_bytes().len() == end
    &&& b.len() <= usize::MAX
}

/// Words that tile all of `text`.
pub open spec fn words_tile<'a>(text: &str, w: Seq<(Position, &'a str)>) -> bool {
    words_tile_to(text, w, text.spec_bytes().len() as int)
}

pub open spec fn places<'a>(w: Seq<(Position, &'a str)>) -> Seq<Place> {
    Seq::new(w.len(), |i: int| w[i].0.spec_place())
}

/// The places of consecutive words form whole runs.
pub open spec fn word_runs(w: Seq<Place>) -> bool {
    &&& forall|i: int| 0 < i < w.len() ==> #[trigger] continues(w[i]) == opens(w[i - 1])
    &&& w.len() > 0 ==> !continues(w[0]) && !opens(w.last())
}

fn place_of(j: usize, n: usize) -> (r: Place)
    requires
        j < n,
    ensures
        r == place_at(j as int, n as int),
{
    if n == 1 {
        Place::Only
    } else if j == 0 {
        Place::First
    } else if j == n - 1 {
        Place::Last
    } else {
        Place::Middle
    }
}

/// The words of `text` by sentence and then by word, each with its place in
/// its sentence and its byte offset.
pub fn word_positions<'a>(text: &'a str) -> (r: Vec<(Position, &'a str)>)
    ensures
        words_tile(text, r@),
        r@.len() == placed_words(sentences_of(text@)).len(),
        forall|i: int| 0 <= i < r@.len() ==> (#[trigger] r@[i]).0.spec_place() == placed_words(sentences_of(text@))[i].0
            && r@[i].1@ == placed_words(sentences_of(text@))[i].1,
        word_runs(places(r@)),
{
    let ghost b = text.spec_bytes();
    let ghost ss = sentences_of(text@);
    let sentences = sentence_bounds(text);
    let mut out: Vec<(Position, &'a str)> = Vec::new();
    let mut k: usize = 0;
    while k < sentences.len()
        invariant
            b == text.spec_bytes(),
            ss == sentences_of(text@),
            tiles_text(text, sentences@),
            sentences@.len() == ss.len(),
            forall|i: int| 0 <= i < sentences@.len() ==> (#[trigger] sentences@[i]).1@ == ss[i],
            0 <= k <= sentences@.len(),
            out@.len() == placed_words(ss.take(k as int)).len(),
            forall|i: int| 0 <= i < out@.len() ==> (#[trigger] out@[i]).0.spec_place() == placed_words(ss.take(k as int))[i].0
                && out@[i].1@ == placed_words(ss.take(k as int))[i].1,
            words_tile_to(text, out@, if k < sentences@.len() { sentences@[k as int].0 as int } else { b.len() as int }),
            word_runs(places(out@)),
        decreases sentences.len() - k,
    {
        let (soff, sent) = sentences[k];
        let ghost prev = placed_words(ss.take(k as int));
        let ghost sb = sent.spec_bytes();
        assert(sentences@[k as int].1.spec_bytes().len() > 0);
        let words = word_bounds(sent);
        let n = words.len();
        let ghost base = out@.len();
        assert(out@.take(base as int) =~= out@);
        let mut j: usize = 0;
        while j < n
            invariant
                b == text.spec_bytes(),
                sb == sent.spec_bytes(),
                k < sentences@.len(),
                sentences@[k as int] == (soff, sent),
                soff + sb.len() <= b.len(),
                soff + sb.len() <= usize::MAX,
                sb == b.subrange(soff as int, soff + sb.len()),
                tiles_text(sent, words@),
                n == words@.len(),
                n > 0,
                0 <= j <= n,
                base == prev.len(),
                out@.len() == base + j,
                forall|i: int| 0 <= i < base ==> (#[trigger] out@[i]).0.spec_place() == prev[i].0
                    && out@[i].1@ == prev[i].1,
                forall|i: int| base <= i < base + j ==> (#[trigger] out@[i]).0 == Position::spec_new(place_at(i - base, n as int), (soff + words@[i - base].0) as usize)
                    && out@[i].1 == words@[i - base].1,
                words_tile_to(text, out@, if j < n { soff + words@[j as int].0 } else { soff + sb.len() }),
                word_runs(places(out@.take(base as int))),
            decreases n - j,
        {
            let (woff, w) = words[j];
            assert(words@[j as int].1.spec_bytes().len() > 0);
            let place = place_of(j, n);
            let item = (Position::new(place, soff + woff), w);
            proof {
                assert(w.spec_bytes() =~= b.subrange((soff + woff) as int, soff + woff + w.spec_bytes().len()));
            }
            let ghost before = out@;
            out.push(item);
            proof {
                let end = if j + 1 < n { soff + words@[j + 1].0 } else { soff + sb.len() };
                assert(item.0.spec_index() + item.1.spec_bytes().len() == end);
                lemma_tile_push(text, before, item, soff + words@[j as int].0);
                assert(out@.take(base as int) =~= before.take(base as int));
            }
            j = j + 1;
        }
        proof {
            let cur = Seq::new(n as nat, |jj: int| (place_at(jj, n as int), words_of(sent@)[jj]));
            assert(ss.take(k + 1).drop_last() =~= ss.take(k as int));
            assert(ss.take(k + 1).last() == sent@);
            assert(placed_words(ss.take(k + 1)) == prev + cur);
            assert(places(out@) =~= places(out@.take(base as int)) + Seq::new(n as nat, |jj: int| place_at(jj, n as int))) by {
                assert forall|i: int| 0 <= i < out@.len() implies #[trigger] places(out@)[i] == (places(out@.take(base as int)) + Seq::new(n as nat, |jj: int| place_at(jj, n as int)))[i] by {
                    if i >= base {
                        assert(out@[i].0 == Position::spec_new(place_at(i - base, n as int), (soff + words@[i - base].0) as usize));
                    }
                }
            }
            lemma_runs_append(places(out@.take(base as int)), Seq::new(n as nat, |jj: int| place_at(jj, n as int)));
            assert forall|i: int| 0 <= i < out@.len() implies (#[trigger] out@[i]).0.spec_place() == placed_words(ss.take(k + 1))[i].0
                && out@[i].1@ == placed_words(ss.take(k + 1))[i].1 by {
                if i >= base {
                    assert(out@[i].0 == Position::spec_new(place_at(i - base, n as int), (soff + words@[i - base].0) as usize));
                    assert(words@[i - base].1@ == words_of(sent@)[i - base]);
                }
            }
        }
        k = k + 1;
    }
    proof {
        assert(ss.take(ss.len() as int) =~= ss);
    }
    out
}

proof fn lemma_tile_push<'a>(text: &str, w: Seq<(Position, &'a str)>, item: (Position, &'a str), end: int)
    requires
        words_tile_to(text, w, end),
        item.1.spec_bytes().len() > 0,
        item.0.spec_index() == end,
        end + item.1.spec_bytes().len() <= text.spec_bytes().len(),
        item.1.spec_bytes() == text.spec_bytes().subrange(end, end + item.1.spec_bytes().len()),
    ensures
        words_tile_to(text, w.push(item), end + item.1.spec_bytes().len()),
{
    let o = w.push(item);
    let b = text.spec_bytes();
    assert forall|i: int| 0 <= i < o.len() implies o[i].1.spec_bytes().len() > 0 && o[i].0.spec_index() + (#[trigger] o[i].1.spec_bytes()).len() <= b.len()
        && o[i].1.spec_bytes() == b.subrange(o[i].0.spec_index() as int, o[i].0.spec_index() + o[i].1.spec_bytes().len()) by {
        if i < w.len() {
            assert(o[i] == w[i]);
            assert(w[i].1.spec_bytes().len() >= 0);
        }
    }
    assert forall|i: int| 0 <= i < o.len() - 1 implies o[i + 1].0.spec_index() == o[i].0.spec_index() + (#[trigger] o[i].1.spec_bytes()).len() by {
        assert(o[i] == w[i]);
        if i + 1 < w.len() {
            assert(o[i + 1] == w[i + 1]);
        }
    }
    if w.len() > 0 {
        assert(o[0] == w[0]);
    }
}

/// Whole runs followed by whole runs are whole runs.
proof fn lemma_runs_append(a: Seq<Place>, c: Seq<Place>)
    requires
        word_runs(a),
        c.len() > 0,
        forall|j: int| 0 <= j < c.len() ==> #[trigger] c[j] == place_at(j, c.len() as int),
    ensures
        word_runs(a + c),
{
    let s = a + c;
    assert forall|i: int| 0 < i < s.len() implies #[trigger] continues(s[i]) == opens(s[i - 1]) by {
        if i < a.len() {
            assert(s[i] == a[i] && s[i - 1] == a[i - 1]);
            assert(continues(a[i]) == opens(a[i - 1]));
        } else if i == a.len() {
            assert(s[i] == c[0]);
            assert(s[i - 1] == a.last());
        } else {
            assert(s[i] == c[i - a.len()] && s[i - 1] == c[i - 1 - a.len()]);
        }
    }
    if a.len() == 0 {
        assert(s[0] == c[0]);
    } else {
        assert(s[0] == a[0]);
    }
    assert(s.last() == c.last());
}

} // verus!
