//! Incremental filter over streamed token pieces.

use vstd::prelude::*;
use crate::stream::stop::{
    contains_stop_suffix, ends_with_stop_prefix, find_stop, incomplete_unicode, is_first_stop,
    is_incomplete_utf8, truncate_stop, truncated_at,
};
use crate::text::{byte_strings, concat_all, concat_pieces, is_first_occurrence};

verus! {

/// Filter incrementally filters a stream of decoded token pieces: it holds
/// back text that might be part of a stop sequence or an incomplete UTF-8
/// character, emits only text that is safe to show, and reports when a stop
/// sequence is hit.
pub struct Filter {
    stops: Vec<Vec<u8>>,
    pending: Vec<Vec<u8>>,
}

/// Some stop sequence occurs in `seq`.
pub open spec fn any_stop_in(seq: Seq<u8>, stops: Seq<Seq<u8>>) -> bool {
    exists|i: int| 0 <= i < stops.len() && crate::text::contains_bytes(seq, #[trigger] stops[i])
}

/// `seq` ends partway into some stop sequence.
pub open spec fn any_stop_prefix_at_end(seq: Seq<u8>, stops: Seq<Seq<u8>>) -> bool {
    exists|k: int| 0 <= k < stops.len() && ends_with_stop_prefix(seq, #[trigger] stops[k])
}

/// What one `push` does, given the stops, the held-back pieces before the
/// call, the new piece, what it returned (`out`, `stop`) and the held-back
/// pieces after it.
///
/// With `seq` the held text followed by the new piece: when a stop occurs in
/// `seq`, the first such stop (in list order) is cut out at its first
/// occurrence, the surviving text is returned with `stop` set, and nothing
/// stays held; otherwise, when `seq` ends partway into a stop or inside an
/// incomplete UTF-8 character, nothing is returned and everything stays
/// held; otherwise all of `seq` is returned and nothing stays held.
pub open spec fn push_step(
    stops: Seq<Seq<u8>>,
    before: Seq<Seq<u8>>,
    piece: Seq<u8>,
    out: Seq<u8>,
    stop: bool,
    after: Seq<Seq<u8>>,
) -> bool {
    let pieces = before.push(piece);
    let seq = concat_all(pieces);
    if any_stop_in(seq, stops) {
        &&& stop
        &&& after.len() == 0
        &&& exists|i: int, idx: int, kept: Seq<Seq<u8>>, cut: bool|
            is_first_stop(seq, stops, i) && is_first_occurrence(seq, stops[i], idx)
                && truncated_at(pieces, idx, kept, cut) && out == concat_all(kept)
    } else if any_stop_prefix_at_end(seq, stops) || is_incomplete_utf8(seq) {
        &&& !stop
        &&& out.len() == 0
        &&& after == pieces
    } else {
        &&& !stop
        &&& out == seq
        &&& after.len() == 0
    }
}

/// One step of `push` that did not reach a stop keeps the text: what it
/// emits followed by what it holds equals what it held followed by the piece.
pub proof fn lemma_push_keeps_text(
    stops: Seq<Seq<u8>>,
    before: Seq<Seq<u8>>,
    piece: Seq<u8>,
    out: Seq<u8>,
    after: Seq<Seq<u8>>,
)
    requires
        push_step(stops, before, piece, out, false, after),
    ensures
        out + concat_all(after) == concat_all(before) + piece,
{
    let pieces = before.push(piece);
    assert(pieces.drop_last() =~= before);
    if any_stop_prefix_at_end(concat_all(pieces), stops) || is_incomplete_utf8(concat_all(pieces)) {
        assert(out =~= Seq::<u8>::empty());
        assert(out + concat_all(after) =~= concat_all(after));
    } else {
        assert(concat_all(after) =~= Seq::<u8>::empty());
        assert(out + concat_all(after) =~= out);
    }
}

/// Law: as long as no stop sequence is reached, a filter loses and invents
/// nothing — the texts it emitted, followed by what it still holds back,
/// are exactly the pieces fed to it, in order. `held[i]` is what the filter
/// held before the `i`-th push (empty at the start).
pub proof fn lemma_filter_conserves_text(
    stops: Seq<Seq<u8>>,
    pieces: Seq<Seq<u8>>,
    outs: Seq<Seq<u8>>,
    held: Seq<Seq<Seq<u8>>>,
)
    requires
        outs.len() == pieces.len(),
        held.len() == pieces.len() + 1,
        held[0] == Seq::<Seq<u8>>::empty(),
        forall|i: int|
            0 <= i < pieces.len() ==> push_step(stops, held[i], pieces[i], #[trigger] outs[i], false, held[i + 1]),
    ensures
        concat_all(outs) + concat_all(held[pieces.len() as int]) == concat_all(pieces),
    decreases pieces.len(),
{
    if pieces.len() == 0 {
        assert(concat_all(held[0]) =~= Seq::<u8>::empty());
        assert(concat_all(outs) + concat_all(held[0]) =~= Seq::<u8>::empty());
    } else {
        let n = pieces.len() - 1;
        lemma_filter_conserves_text(stops, pieces.drop_last(), outs.drop_last(), held.drop_last());
        assert(push_step(stops, held[n], pieces[n], outs[n], false, held[n + 1]));
        lemma_push_keeps_text(stops, held[n], pieces[n], outs[n], held[n + 1]);
        assert(held.drop_last()[n] == held[n]);
        assert(concat_all(outs) == concat_all(outs.drop_last()) + outs[n]);
        assert(concat_all(pieces) == concat_all(pieces.drop_last()) + pieces[n]);
        assert(concat_all(outs) + concat_all(held[n + 1]) =~= concat_all(outs.drop_last()) + (outs[n]
            + concat_all(held[n + 1])));
        assert(concat_all(pieces.drop_last()) + pieces[n] =~= (concat_all(outs.drop_last()) + concat_all(held[n])) + pieces[n]);
    }
}

/// A stop sequence cannot straddle two texts of which the first neither
/// contains it nor ends partway into it.
proof fn lemma_no_straddle(a: Seq<u8>, b: Seq<u8>, st: Seq<u8>)
    requires
        st.len() > 0,
        !crate::text::contains_bytes(a, st),
        !crate::text::contains_bytes(b, st),
        !ends_with_stop_prefix(a, st),
    ensures
        !crate::text::contains_bytes(a + b, st),
{
    let ab = a + b;
    if crate::text::contains_bytes(ab, st) {
        let k = choose|k: int| crate::text::occurs_at(ab, st, k);
        if k + st.len() <= a.len() {
            assert(ab.subrange(k, k + st.len()) =~= a.subrange(k, k + st.len()));
            assert(crate::text::occurs_at(a, st, k));
        } else if k >= a.len() {
            assert(ab.subrange(k, k + st.len()) =~= b.subrange(k - a.len(), k - a.len() + st.len()));
            assert(crate::text::occurs_at(b, st, k - a.len()));
        } else {
            let i = a.len() - k;
            assert(a.subrange(a.len() - i, a.len() as int) =~= st.subrange(0, i)) by {
                assert forall|j: int| 0 <= j < i implies a.subrange(a.len() - i, a.len() as int)[j] == st.subrange(0, i)[j] by {
                    assert(ab[k + j] == a[k + j]);
                    assert(ab.subrange(k, k + st.len())[j] == st[j]);
                }
            }
            assert(ends_with_stop_prefix(a, st));
        }
    }
}

/// A text made of two parts ends partway into a stop sequence only if the
/// second part does, or the first part does.
proof fn lemma_prefix_end_concat(a: Seq<u8>, b: Seq<u8>, st: Seq<u8>)
    requires
        !ends_with_stop_prefix(a, st),
        !ends_with_stop_prefix(b, st),
    ensures
        !ends_with_stop_prefix(a + b, st),
{
    let ab = a + b;
    if ends_with_stop_prefix(ab, st) {
        let i = choose|i: int|
            1 <= i <= st.len() && i <= ab.len() && #[trigger] ab.subrange(ab.len() - i, ab.len() as int) == st.subrange(0, i);
        if i <= b.len() {
            assert(ab.subrange(ab.len() - i, ab.len() as int) =~= b.subrange(b.len() - i, b.len() as int));
            assert(ends_with_stop_prefix(b, st));
        } else {
            let j = i - b.len();
            assert(a.subrange(a.len() - j, a.len() as int) =~= st.subrange(0, j)) by {
                assert forall|q: int| 0 <= q < j implies a.subrange(a.len() - j, a.len() as int)[q] == st.subrange(0, j)[q] by {
                    assert(ab.subrange(ab.len() - i, ab.len() as int)[q] == st.subrange(0, i)[q]);
                }
            }
            assert(ends_with_stop_prefix(a, st));
        }
    }
}

/// Law: as long as no stop sequence is reached, the text a filter has
/// emitted contains none of its (non-empty) stop sequences and does not end
/// partway into one, so no stop sequence can straddle what was emitted and
/// what comes next. `held[i]` is what the filter held before the `i`-th
/// push (empty at the start).
pub proof fn lemma_filter_emits_no_stop(
    stops: Seq<Seq<u8>>,
    pieces: Seq<Seq<u8>>,
    outs: Seq<Seq<u8>>,
    held: Seq<Seq<Seq<u8>>>,
)
    requires
        forall|i: int| 0 <= i < stops.len() ==> (#[trigger] stops[i]).len() > 0,
        outs.len() == pieces.len(),
        held.len() == pieces.len() + 1,
        held[0] == Seq::<Seq<u8>>::empty(),
        forall|i: int|
            0 <= i < pieces.len() ==> push_step(stops, held[i], pieces[i], #[trigger] outs[i], false, held[i + 1]),
    ensures
        forall|k: int|
            0 <= k < stops.len() ==> !crate::text::contains_bytes(concat_all(outs), #[trigger] stops[k])
                && !ends_with_stop_prefix(concat_all(outs), stops[k]),
    decreases pieces.len(),
{
    if pieces.len() == 0 {
        assert(concat_all(outs) =~= Seq::<u8>::empty());
        assert forall|k: int| 0 <= k < stops.len() implies !crate::text::contains_bytes(
            concat_all(outs),
            #[trigger] stops[k],
        ) && !ends_with_stop_prefix(concat_all(outs), stops[k]) by {
            if crate::text::contains_bytes(concat_all(outs), stops[k]) {
                let j = choose|j: int| crate::text::occurs_at(concat_all(outs), stops[k], j);
            }
        }
    } else {
        let n = pieces.len() - 1;
        lemma_filter_emits_no_stop(stops, pieces.drop_last(), outs.drop_last(), held.drop_last());
        assert(push_step(stops, held[n], pieces[n], outs[n], false, held[n + 1]));
        assert(concat_all(outs) == concat_all(outs.drop_last()) + outs[n]);
        let e = concat_all(outs.drop_last());
        let seq = concat_all(held[n].push(pieces[n]));
        assert(held.drop_last()[n] == held[n]);
        assert forall|k: int| 0 <= k < stops.len() implies !crate::text::contains_bytes(
            concat_all(outs),
            #[trigger] stops[k],
        ) && !ends_with_stop_prefix(concat_all(outs), stops[k]) by {
            assert(!crate::text::contains_bytes(e, stops[k]) && !ends_with_stop_prefix(e, stops[k]));
            if outs[n].len() == 0 {
                assert(concat_all(outs) =~= e);
            } else {
                assert(outs[n] == seq);
                assert(!any_stop_in(seq, stops));
                assert(!crate::text::contains_bytes(seq, stops[k]));
                assert(!any_stop_prefix_at_end(seq, stops));
                assert(!ends_with_stop_prefix(seq, stops[k]));
                lemma_no_straddle(e, seq, stops[k]);
                lemma_prefix_end_concat(e, seq, stops[k]);
            }
        }
    }
}

impl Filter {
    /// The stop sequences this filter watches for.
    pub closed spec fn stops_view(&self) -> Seq<Seq<u8>> {
        byte_strings(self.stops@)
    }

    /// The pieces currently held back.
    pub closed spec fn pending_view(&self) -> Seq<Seq<u8>> {
        byte_strings(self.pending@)
    }

    /// Returns a Filter for the given stop sequences (empty means no stops —
    /// the Filter then only guards against split UTF-8 characters).
    pub fn new(stops: Vec<Vec<u8>>) -> (f: Filter)
        ensures
            f.stops_view() == byte_strings(stops@),
            f.pending_view() == Seq::<Seq<u8>>::empty(),
    {
        let f = Filter { stops, pending: Vec::new() };
        assert(f.pending_view() =~= Seq::<Seq<u8>>::empty());
        f
    }

    /// Feeds one decoded piece and returns the text now safe to emit
    /// (possibly empty) plus whether a stop sequence was reached. When stop
    /// is true, the matched stop sequence and everything after it are
    /// dropped.
    pub fn push(&mut self, piece: &[u8]) -> (r: (Vec<u8>, bool))
        ensures
            final(self).stops_view() == old(self).stops_view(),
            push_step(
                old(self).stops_view(),
                old(self).pending_view(),
                piece@,
                r.0@,
                r.1,
                final(self).pending_view(),
            ),
    {
        let ghost stops = self.stops_view();
        let ghost before = self.pending_view();
        let copy = vstd::slice::slice_to_vec(piece);
        let ghost old_pending = self.pending@;
        self.pending.push(copy);
        proof {
            assert(self.pending@ == old_pending.push(copy));
            assert(byte_strings(self.pending@) =~= before.push(piece@)) by {
                assert forall|t: int| 0 <= t < self.pending@.len() implies #[trigger] byte_strings(self.pending@)[t] == before.push(piece@)[t] by {
                    if t < old_pending.len() {
                        assert(byte_strings(old_pending)[t] == before[t]);
                    }
                }
            }
        }
        let seq = concat_pieces(self.pending.as_slice());
        if let Some(matched) = find_stop(seq.as_slice(), self.stops.as_slice()) {
            let (truncated, cut) = truncate_stop(self.pending.as_slice(), matched.as_slice());
            let out = concat_pieces(truncated.as_slice());
            self.pending.clear();
            proof {
                let pieces = before.push(piece@);
                let i = choose|i: int| is_first_stop(seq@, stops, i) && matched@ == stops[i];
                assert(any_stop_in(seq@, stops));
                let idx = choose|idx: int| is_first_occurrence(seq@, matched@, idx)
                    && truncated_at(pieces, idx, byte_strings(truncated@), cut);
                assert(self.pending_view() =~= Seq::<Seq<u8>>::empty());
            }
            return (out, true);
        }
        if contains_stop_suffix(seq.as_slice(), self.stops.as_slice()) || incomplete_unicode(seq.as_slice()) {
            return (Vec::new(), false);
        }
        self.pending.clear();
        assert(self.pending_view() =~= Seq::<Seq<u8>>::empty());
        (seq, false)
    }

    /// Returns any buffered remainder at end-of-generation and clears the
    /// buffer.
    pub fn flush(&mut self) -> (r: Vec<u8>)
        ensures
            final(self).stops_view() == old(self).stops_view(),
            r@ == concat_all(old(self).pending_view()),
            final(self).pending_view() == Seq::<Seq<u8>>::empty(),
    {
        let out = concat_pieces(self.pending.as_slice());
        self.pending.clear();
        assert(self.pending_view() =~= Seq::<Seq<u8>>::empty());
        out
    }
}

} // verus!
