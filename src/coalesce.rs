use vstd::prelude::*;
use vstd::string::StringSliceAdditionalSpecFns;
use vstd::utf8::*;

use crate::category::{category_of, classify, is_gap, is_gap_exec, joinable, joinable_exec, Category};
use crate::token::{continues, opens, Place};

verus! {

/// A classified span `[start, end)` of byte offsets into a text, with its
/// place in its run.
#[derive(Clone, Copy, Debug, PartialEq, Eq, Structural)]
pub struct Piece {
    pub category: Category,
    pub place: Place,
    pub start: usize,
    pub end: usize,
}

/// Why a coalescing pass gave up.
#[derive(Clone, Copy, Debug, PartialEq, Eq, Structural)]
pub enum RunError {
    /// The piece at this index cannot follow the piece before it: a run is
    /// `First`, any number of `Middle`, then `Last`, or a lone `Only`.
    BrokenRun(usize),
}

/// The place of two merged neighbours; `None` for the pairs that do not merge.
pub open spec fn merged_place(a: Place, b: Place) -> Option<Place> {
    match (a, b) {
        (Place::First, Place::Middle) => Some(Place::First),
        (Place::First, Place::Last) => Some(Place::Only),
        (Place::Middle, Place::Middle) => Some(Place::Middle),
        (Place::Middle, Place::Last) => Some(Place::Last),
        (Place::Only, Place::First) => Some(Place::First),
        (Place::Only, Place::Only) => Some(Place::Only),
        (Place::Last, Place::Only) => Some(Place::Last),
        _ => None,
    }
}

/// Every piece may follow the one before it.
pub open spec fn places_chain(s: Seq<Piece>) -> bool {
    forall|i: int| 0 < i < s.len() ==> #[trigger] continues(s[i].place) == opens(s[i - 1].place)
}

/// The places form whole runs: `First Middle* Last` or `Only`, one after another.
pub open spec fn runs_well_formed(s: Seq<Piece>) -> bool {
    &&& places_chain(s)
    &&& s.len() > 0 ==> !continues(s[0].place) && !opens(s.last().place)
}

/// The characters of the bytes `[start, end)` of a text.
pub open spec fn span_text(bytes: Seq<u8>, start: int, end: int) -> Seq<char> {
    decode_utf8(bytes.subrange(start, end))
}

/// A non-empty span on character boundaries whose category is the one its
/// characters give.
pub open spec fn piece_ok(bytes: Seq<u8>, p: Piece) -> bool {
    &&& p.start < p.end <= bytes.len()
    &&& is_char_boundary(bytes, p.start as int)
    &&& is_char_boundary(bytes, p.end as int)
    &&& category_of(span_text(bytes, p.start as int, p.end as int)) == Some(p.category)
}

pub open spec fn all_ok(bytes: Seq<u8>, s: Seq<Piece>) -> bool {
    forall|i: int| 0 <= i < s.len() ==> #[trigger] piece_ok(bytes, s[i])
}

/// Each piece ends where the next one starts.
pub open spec fn contiguous(s: Seq<Piece>) -> bool {
    forall|i: int| 0 < i < s.len() ==> #[trigger] s[i].start == s[i - 1].end
}

/// The pieces cover `[lo, hi)` with no gap and no overlap.
pub open spec fn covers(s: Seq<Piece>, lo: int, hi: int) -> bool {
    &&& contiguous(s)
    &&& s.len() == 0 ==> lo == hi
    &&& s.len() > 0 ==> s[0].start == lo && s.last().end == hi
}

/// The merge of two neighbours: of one category or both separators and
/// whitespace, textually adjacent, and of places that merge. The merged
/// piece takes the category of the joined text; a union that meets no
/// category is not merged.
pub open spec fn merge_step(bytes: Seq<u8>, a: Piece, b: Piece) -> Option<Piece> {
    if joinable(a.category, b.category) && a.end == b.start && merged_place(a.place, b.place) is Some
        && category_of(span_text(bytes, a.start as int, b.end as int)) is Some {
        Some(
            Piece {
                category: category_of(span_text(bytes, a.start as int, b.end as int))->0,
                place: merged_place(a.place, b.place)->0,
                start: a.start,
                end: b.end,
            },
        )
    } else {
        None
    }
}

/// One left-to-right coalescing pass: each piece merges into the last piece
/// kept so far where `merge_step` allows, and is kept as it is otherwise.
pub open spec fn coalesced(bytes: Seq<u8>, s: Seq<Piece>) -> Seq<Piece>
    decreases s.len(),
{
    if s.len() == 0 {
        seq![]
    } else {
        let prev = coalesced(bytes, s.drop_last());
        if prev.len() == 0 {
            seq![s.last()]
        } else {
            match merge_step(bytes, prev.last(), s.last()) {
                Some(m) => prev.drop_last().push(m),
                None => prev.push(s.last()),
            }
        }
    }
}

/// The new places of two neighbours that a sentence boundary may have split
/// inside a run of separators or whitespace.
pub open spec fn retag(a: Piece, b: Piece) -> (Place, Place) {
    if a.place == Place::First && b.place == Place::Last && !is_gap(a.category) && is_gap(b.category) {
        (Place::Only, Place::Only)
    } else if a.place == Place::First && b.place == Place::Last && is_gap(a.category) && !is_gap(b.category) {
        (Place::Only, Place::Only)
    } else if a.place == Place::First && b.place == Place::Middle && is_gap(a.category) && !is_gap(b.category) {
        (Place::Only, Place::First)
    } else if a.place == Place::Middle && b.place == Place::Last && !is_gap(a.category) && is_gap(b.category) {
        (Place::Last, Place::Only)
    } else {
        (a.place, b.place)
    }
}

pub open spec fn with_place(p: Piece, place: Place) -> Piece {
    Piece { place, ..p }
}

/// The boundary repair: a left-to-right pass that retags each piece together
/// with the (possibly retagged) piece before it.
pub open spec fn repaired(s: Seq<Piece>) -> Seq<Piece>
    decreases s.len(),
{
    if s.len() == 0 {
        seq![]
    } else {
        let prev = repaired(s.drop_last());
        if prev.len() == 0 {
            seq![s.last()]
        } else {
            let (pa, pb) = retag(prev.last(), s.last());
            prev.drop_last().push(with_place(prev.last(), pa)).push(with_place(s.last(), pb))
        }
    }
}

fn merged_place_exec(a: Place, b: Place) -> (r: Option<Place>)
    ensures
        r == merged_place(a, b),
{
    match (a, b) {
        (Place::First, Place::Middle) => Some(Place::First),
        (Place::First, Place::Last) => Some(Place::Only),
        (Place::Middle, Place::Middle) => Some(Place::Middle),
        (Place::Middle, Place::Last) => Some(Place::Last),
        (Place::Only, Place::First) => Some(Place::First),
        (Place::Only, Place::Only) => Some(Place::Only),
        (Place::Last, Place::Only) => Some(Place::Last),
        _ => None,
    }
}

fn can_follow(a: Place, b: Place) -> (r: bool)
    ensures
        r == (continues(b) == opens(a)),
{
    let open = match a {
        Place::First | Place::Middle => true,
        _ => false,
    };
    let cont = match b {
        Place::Middle | Place::Last => true,
        _ => false,
    };
    open == cont
}

/// A boundary inside a valid text stays one in the text's tail from an
/// earlier boundary.
proof fn lemma_boundary_in_tail(bytes: Seq<u8>, start: int, end: int)
    requires
        valid_utf8(bytes),
        0 <= start <= end <= bytes.len(),
        is_char_boundary(bytes, start),
        is_char_boundary(bytes, end),
    ensures
        is_char_boundary(bytes.subrange(start, bytes.len() as int), end - start),
{
    broadcast use group_utf8_lib;

    let tail = bytes.subrange(start, bytes.len() as int);
    assert(valid_utf8(tail));
    if end < bytes.len() {
        assert(tail[end - start] == bytes[end]);
        assert(is_char_boundary(bytes, end) <==> !is_continuation_byte(bytes[end]));
        assert(is_char_boundary(tail, end - start) <==> !is_continuation_byte(tail[end - start]));
    } else {
        assert(is_char_boundary(tail, tail.len() as int));
    }
}

/// The text's bytes `[start, end)`, borrowed.
pub fn span<'a>(text: &'a str, start: usize, end: usize) -> (r: &'a str)
    requires
        start <= end <= text.spec_bytes().len(),
        is_char_boundary(text.spec_bytes(), start as int),
        is_char_boundary(text.spec_bytes(), end as int),
    ensures
        r.spec_bytes() == text.spec_bytes().subrange(start as int, end as int),
        r@ == span_text(text.spec_bytes(), start as int, end as int),
{
    proof {
        broadcast use group_utf8_lib;

        lemma_boundary_in_tail(text.spec_bytes(), start as int, end as int);
    }
    let (_, tail) = text.split_at(start);
    let (mid, _) = tail.split_at(end - start);
    assert(mid.spec_bytes() =~= text.spec_bytes().subrange(start as int, end as int));
    proof {
        encode_utf8_decode_utf8(mid@);
    }
    mid
}

/// The merge of two neighbours, where `merge_step` allows one.
fn merge(text: &str, a: Piece, b: Piece) -> (r: Option<Piece>)
    requires
        piece_ok(text.spec_bytes(), a),
        piece_ok(text.spec_bytes(), b),
    ensures
        r == merge_step(text.spec_bytes(), a, b),
{
    if !joinable_exec(a.category, b.category) || a.end != b.start {
        return None;
    }
    let place = match merged_place_exec(a.place, b.place) {
        Some(p) => p,
        None => return None,
    };
    let joined = span(text, a.start, b.end);
    match classify(joined) {
        Some(c) => Some(Piece { category: c, place, start: a.start, end: b.end }),
        None => None,
    }
}

/// One coalescing pass over pieces of `text`.
///
/// Fails, at the first offending index, exactly when some piece cannot follow
/// the one before it; otherwise returns `coalesced`.
pub fn coalesce(text: &str, pieces: &Vec<Piece>) -> (r: Result<Vec<Piece>, RunError>)
    requires
        all_ok(text.spec_bytes(), pieces@),
    ensures
        r is Err <==> !places_chain(pieces@),
        r matches Ok(v) ==> v@ == coalesced(text.spec_bytes(), pieces@),
        r matches Err(RunError::BrokenRun(i)) ==> 0 < i < pieces@.len()
            && continues(pieces@[i as int].place) != opens(pieces@[i - 1].place),
{
    let ghost bytes = text.spec_bytes();
    let mut out: Vec<Piece> = Vec::new();
    let mut i: usize = 0;
    while i < pieces.len()
        invariant
            bytes == text.spec_bytes(),
            all_ok(bytes, pieces@),
            0 <= i <= pieces@.len(),
            out@ == coalesced(bytes, pieces@.take(i as int)),
            places_chain(pieces@.take(i as int)),
            all_ok(bytes, out@),
            i > 0 ==> out@.len() > 0 && opens(out@.last().place) == opens(pieces@[i - 1].place),
            i == 0 ==> out@.len() == 0,
        decreases pieces.len() - i,
    {
        let p = pieces[i];
        proof {
            assert(pieces@.take(i + 1).drop_last() =~= pieces@.take(i as int));
            assert(pieces@.take(i + 1).last() == p);
        }
        if out.len() == 0 {
            out.push(p);
            assert(places_chain(pieces@.take(i + 1)));
        } else {
            let last = out[out.len() - 1];
            assert(piece_ok(bytes, last));
            assert(piece_ok(bytes, p));
            if !can_follow(last.place, p.place) {
                assert(!places_chain(pieces@)) by {
                    assert(continues(pieces@[i as int].place) != opens(pieces@[i - 1].place));
                }
                return Err(RunError::BrokenRun(i));
            }
            assert(places_chain(pieces@.take(i + 1))) by {
                assert forall|j: int| 0 < j < i + 1 implies #[trigger] continues(pieces@.take(i + 1)[j].place)
                    == opens(pieces@.take(i + 1)[j - 1].place) by {
                    if j < i {
                        assert(pieces@.take(i as int)[j] == pieces@[j]);
                        assert(pieces@.take(i as int)[j - 1] == pieces@[j - 1]);
                        assert(continues(pieces@.take(i as int)[j].place) == opens(pieces@.take(i as int)[j - 1].place));
                    }
                }
            }
            match merge(text, last, p) {
                Some(m) => {
                    let n = out.len() - 1;
                    out.set(n, m);
                    assert(out@ =~= coalesced(bytes, pieces@.take(i as int)).drop_last().push(m));
                    proof {
                        assert(piece_ok(bytes, m));
                        assert forall|j: int| 0 <= j < out@.len() implies #[trigger] piece_ok(bytes, out@[j]) by {
                            if j < n {
                                assert(out@[j] == coalesced(bytes, pieces@.take(i as int))[j]);
                            }
                        }
                        lemma_merged_place(last.place, p.place);
                    }
                },
                None => {
                    out.push(p);
                    assert(all_ok(bytes, out@)) by {
                        assert forall|j: int| 0 <= j < out@.len() implies #[trigger] piece_ok(bytes, out@[j]) by {
                            if j < out@.len() - 1 {
                                assert(out@[j] == coalesced(bytes, pieces@.take(i as int))[j]);
                            }
                        }
                    }
                },
            }
        }
        i = i + 1;
    }
    assert(pieces@.take(pieces@.len() as int) =~= pieces@);
    Ok(out)
}

/// A merge keeps what came before its first piece and what follows its last.
proof fn lemma_merged_place(a: Place, b: Place)
    ensures
        merged_place(a, b) matches Some(m) ==> continues(m) == continues(a) && opens(m) == opens(b),
{
}

/// The boundary repair, a pass that never merges and keeps every span.
pub fn repair(pieces: &Vec<Piece>) -> (r: Vec<Piece>)
    ensures
        r@ == repaired(pieces@),
{
    let mut out: Vec<Piece> = Vec::new();
    let mut i: usize = 0;
    while i < pieces.len()
        invariant
            0 <= i <= pieces@.len(),
            out@ == repaired(pieces@.take(i as int)),
            out@.len() == i,
        decreases pieces.len() - i,
    {
        let p = pieces[i];
        proof {
            lemma_repaired_len(pieces@.take(i as int));
            assert(pieces@.take(i + 1).drop_last() =~= pieces@.take(i as int));
            assert(pieces@.take(i + 1).last() == p);
        }
        if out.len() == 0 {
            out.push(p);
        } else {
            let n = out.len() - 1;
            let a = out[n];
            let a_gap = is_gap_exec(a.category);
            let b_gap = is_gap_exec(p.category);
            let (pa, pb) = if a.place == Place::First && p.place == Place::Last && !a_gap && b_gap {
                (Place::Only, Place::Only)
            } else if a.place == Place::First && p.place == Place::Last && a_gap && !b_gap {
                (Place::Only, Place::Only)
            } else if a.place == Place::First && p.place == Place::Middle && a_gap && !b_gap {
                (Place::Only, Place::First)
            } else if a.place == Place::Middle && p.place == Place::Last && !a_gap && b_gap {
                (Place::Last, Place::Only)
            } else {
                (a.place, p.place)
            };
            out.set(n, Piece { place: pa, ..a });
            out.push(Piece { place: pb, ..p });
            assert(out@ =~= repaired(pieces@.take(i as int)).drop_last().push(with_place(a, pa)).push(with_place(p, pb)));
        }
        i = i + 1;
    }
    assert(pieces@.take(pieces@.len() as int) =~= pieces@);
    out
}

proof fn lemma_repaired_len(s: Seq<Piece>)
    ensures
        repaired(s).len() == s.len(),
    decreases s.len(),
{
    if s.len() > 0 {
        lemma_repaired_len(s.drop_last());
    }
}

/// What a coalescing pass keeps: valid pieces, the covered range, and the
/// run structure at both ends and between neighbours.
pub proof fn lemma_coalesced_shape(bytes: Seq<u8>, s: Seq<Piece>)
    requires
        all_ok(bytes, s),
        contiguous(s),
        places_chain(s),
    ensures
        all_ok(bytes, coalesced(bytes, s)),
        contiguous(coalesced(bytes, s)),
        places_chain(coalesced(bytes, s)),
        coalesced(bytes, s).len() <= s.len(),
        s.len() == 0 ==> coalesced(bytes, s).len() == 0,
        s.len() > 0 ==> {
            let c = coalesced(bytes, s);
            &&& c.len() > 0
            &&& c[0].start == s[0].start
            &&& c.last().end == s.last().end
            &&& continues(c[0].place) == continues(s[0].place)
            &&& opens(c.last().place) == opens(s.last().place)
        },
    decreases s.len(),
{
    if s.len() > 0 {
        let t = s.drop_last();
        let p = s.last();
        assert(all_ok(bytes, t)) by {
            assert forall|j: int| 0 <= j < t.len() implies #[trigger] piece_ok(bytes, t[j]) by {
                assert(t[j] == s[j]);
            }
        }
        assert(contiguous(t)) by {
            assert forall|j: int| 0 < j < t.len() implies #[trigger] t[j].start == t[j - 1].end by {
                assert(t[j] == s[j] && t[j - 1] == s[j - 1]);
            }
        }
        assert(places_chain(t)) by {
            assert forall|j: int| 0 < j < t.len() implies #[trigger] continues(t[j].place) == opens(t[j - 1].place) by {
                assert(t[j] == s[j] && t[j - 1] == s[j - 1]);
                assert(continues(s[j].place) == opens(s[j - 1].place));
            }
        }
        lemma_coalesced_shape(bytes, t);
        let prev = coalesced(bytes, t);
        assert(piece_ok(bytes, p));
        if prev.len() > 0 {
            let last = prev.last();
            let n = s.len() - 1;
            assert(continues(s[n].place) == opens(s[n - 1].place));
            assert(s[n].start == s[n - 1].end);
            assert(piece_ok(bytes, last));
            match merge_step(bytes, last, p) {
                Some(m) => {
                    lemma_merged_place(last.place, p.place);
                    let c = prev.drop_last().push(m);
                    assert(c == coalesced(bytes, s));
                    assert forall|j: int| 0 <= j < c.len() implies #[trigger] piece_ok(bytes, c[j]) by {
                        if j < c.len() - 1 {
                            assert(c[j] == prev[j]);
                        }
                    }
                    assert forall|j: int| 0 < j < c.len() implies #[trigger] c[j].start == c[j - 1].end by {
                        assert(c[j - 1] == prev[j - 1]);
                        if j < c.len() - 1 {
                            assert(c[j] == prev[j]);
                        }
                    }
                    assert forall|j: int| 0 < j < c.len() implies #[trigger] continues(c[j].place) == opens(c[j - 1].place) by {
                        assert(c[j - 1] == prev[j - 1]);
                        if j < c.len() - 1 {
                            assert(c[j] == prev[j]);
                            assert(continues(prev[j].place) == opens(prev[j - 1].place));
                        } else {
                            assert(continues(prev[j].place) == opens(prev[j - 1].place));
                        }
                    }
                    if c.len() == 1 {
                        assert(c[0] == m);
                    } else {
                        assert(c[0] == prev[0]);
                    }
                },
                None => {
                    let c = prev.push(p);
                    assert(c == coalesced(bytes, s));
                    assert forall|j: int| 0 <= j < c.len() implies #[trigger] piece_ok(bytes, c[j]) by {
                        if j < c.len() - 1 {
                            assert(c[j] == prev[j]);
                        }
                    }
                    assert forall|j: int| 0 < j < c.len() implies #[trigger] c[j].start == c[j - 1].end by {
                        assert(c[j - 1] == prev[j - 1]);
                        if j < c.len() - 1 {
                            assert(c[j] == prev[j]);
                        }
                    }
                    assert forall|j: int| 0 < j < c.len() implies #[trigger] continues(c[j].place) == opens(c[j - 1].place) by {
                        assert(c[j - 1] == prev[j - 1]);
                        if j < c.len() - 1 {
                            assert(c[j] == prev[j]);
                            assert(continues(prev[j].place) == opens(prev[j - 1].place));
                        }
                    }
                    assert(c[0] == prev[0]);
                },
            }
        }
    }
}

/// What the boundary repair keeps: every span and category, and the run
/// structure at both ends and between neighbours.
pub proof fn lemma_repaired_shape(s: Seq<Piece>)
    requires
        places_chain(s),
    ensures
        repaired(s).len() == s.len(),
        forall|i: int| 0 <= i < s.len() ==> #[trigger] repaired(s)[i] == with_place(s[i], repaired(s)[i].place),
        places_chain(repaired(s)),
        s.len() > 0 ==> continues(repaired(s)[0].place) == continues(s[0].place)
            && opens(repaired(s).last().place) == opens(s.last().place),
    decreases s.len(),
{
    if s.len() > 0 {
        let t = s.drop_last();
        let p = s.last();
        assert(places_chain(t)) by {
            assert forall|j: int| 0 < j < t.len() implies #[trigger] continues(t[j].place) == opens(t[j - 1].place) by {
                assert(t[j] == s[j] && t[j - 1] == s[j - 1]);
                assert(continues(s[j].place) == opens(s[j - 1].place));
            }
        }
        lemma_repaired_shape(t);
        let prev = repaired(t);
        let r = repaired(s);
        if prev.len() > 0 {
            let n = s.len() - 1;
            assert(continues(s[n].place) == opens(s[n - 1].place));
            let a = prev.last();
            let (pa, pb) = retag(a, p);
            assert(r == prev.drop_last().push(with_place(a, pa)).push(with_place(p, pb)));
            assert(prev[n - 1] == a);
            assert(a == with_place(t[n - 1], a.place));
            assert forall|i: int| 0 <= i < s.len() implies #[trigger] r[i] == with_place(s[i], r[i].place) by {
                if i < n - 1 {
                    assert(r[i] == prev[i]);
                    assert(prev[i] == with_place(t[i], prev[i].place));
                }
            }
            assert forall|j: int| 0 < j < r.len() implies #[trigger] continues(r[j].place) == opens(r[j - 1].place) by {
                if j < n - 1 {
                    assert(r[j] == prev[j] && r[j - 1] == prev[j - 1]);
                    assert(continues(prev[j].place) == opens(prev[j - 1].place));
                } else if j == n - 1 {
                    assert(r[j - 1] == prev[j - 1]);
                    assert(continues(prev[j].place) == opens(prev[j - 1].place));
                }
            }
            if n - 1 > 0 {
                assert(r[0] == prev[0]);
            }
        }
    }
}

/// A sequence in which no two neighbours merge is left as it is by a
/// coalescing pass.
pub proof fn lemma_coalesced_unchanged(bytes: Seq<u8>, s: Seq<Piece>)
    requires
        forall|i: int| 0 < i < s.len() ==> #[trigger] merge_step(bytes, s[i - 1], s[i]) is None,
    ensures
        coalesced(bytes, s) == s,
    decreases s.len(),
{
    if s.len() > 0 {
        let t = s.drop_last();
        assert forall|i: int| 0 < i < t.len() implies #[trigger] merge_step(bytes, t[i - 1], t[i]) is None by {
            assert(t[i - 1] == s[i - 1] && t[i] == s[i]);
            assert(merge_step(bytes, s[i - 1], s[i]) is None);
        }
        lemma_coalesced_unchanged(bytes, t);
        if t.len() > 0 {
            assert(merge_step(bytes, s[s.len() - 2], s[s.len() - 1]) is None);
        }
        assert(t.push(s.last()) =~= s);
    }
}

/// A sequence with two neighbours that merge comes out of a coalescing pass
/// shorter.
proof fn lemma_coalesced_shorter(bytes: Seq<u8>, s: Seq<Piece>)
    requires
        exists|i: int| 0 < i < s.len() && #[trigger] merge_step(bytes, s[i - 1], s[i]) is Some,
    ensures
        coalesced(bytes, s).len() < s.len(),
    decreases s.len(),
{
    let t = s.drop_last();
    if exists|i: int| 0 < i < t.len() && #[trigger] merge_step(bytes, t[i - 1], t[i]) is Some {
        lemma_coalesced_shorter(bytes, t);
    } else {
        assert forall|i: int| 0 < i < t.len() implies #[trigger] merge_step(bytes, t[i - 1], t[i]) is None by {
        }
        lemma_coalesced_unchanged(bytes, t);
        let i = choose|i: int| 0 < i < s.len() && #[trigger] merge_step(bytes, s[i - 1], s[i]) is Some;
        if i < t.len() {
            assert(t[i - 1] == s[i - 1] && t[i] == s[i]);
        }
        assert(i == s.len() - 1);
        assert(t.last() == s[i - 1]);
    }
}

/// Coalescing twice gives what coalescing once gives exactly when no two
/// neighbours of the once-coalesced sequence still merge.
///
/// Such neighbours do occur: a `Last` piece followed by a whole run of its
/// category, which the first pass folds into one `Only` piece that the
/// second pass then joins to the `Last` piece.
pub proof fn lemma_coalesce_twice(bytes: Seq<u8>, s: Seq<Piece>)
    ensures
        (coalesced(bytes, coalesced(bytes, s)) == coalesced(bytes, s)) <==> forall|i: int|
            0 < i < coalesced(bytes, s).len() ==> #[trigger] merge_step(
                bytes,
                coalesced(bytes, s)[i - 1],
                coalesced(bytes, s)[i],
            ) is None,
{
    let c = coalesced(bytes, s);
    if forall|i: int| 0 < i < c.len() ==> #[trigger] merge_step(bytes, c[i - 1], c[i]) is None {
        lemma_coalesced_unchanged(bytes, c);
    } else {
        lemma_coalesced_shorter(bytes, c);
    }
}

} // verus!
