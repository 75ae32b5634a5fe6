//! Stop-sequence helpers over raw text bytes.
//!
//! Token pieces streamed from a model may split a multi-byte UTF-8 character,
//! so every helper here works on bytes rather than on `str`.

use vstd::prelude::*;
use vstd::utf8::{
    is_continuation_byte, is_leading_byte_width_2, is_leading_byte_width_3, is_leading_byte_width_4,
};
use crate::text::{
    byte_strings, concat_all, concat_pieces, contains_bytes, find_bytes, is_first_occurrence, lossy_bytes,
    decode_lossy,
};

verus! {

/// The tail of `seq` equals the first `i` bytes of `stop`, for some
/// `1 <= i <= stop.len()`.
pub open spec fn ends_with_stop_prefix(seq: Seq<u8>, stop: Seq<u8>) -> bool {
    exists|i: int|
        1 <= i <= stop.len() && i <= seq.len() && #[trigger] seq.subrange(seq.len() - i, seq.len() as int)
            == stop.subrange(0, i)
}

/// Index of the first stop (in list order) that occurs in `seq`.
pub open spec fn is_first_stop(seq: Seq<u8>, stops: Seq<Seq<u8>>, i: int) -> bool {
    &&& 0 <= i < stops.len()
    &&& contains_bytes(seq, stops[i])
    &&& forall|j: int| 0 <= j < i ==> !contains_bytes(seq, #[trigger] stops[j])
}

/// Reports whether any stop sequence occurs in `seq`, returning the first
/// one (in list order) that does.
pub fn find_stop(seq: &[u8], stops: &[Vec<u8>]) -> (r: Option<Vec<u8>>)
    ensures
        match r {
            Some(s) => exists|i: int| is_first_stop(seq@, byte_strings(stops@), i) && s@ == byte_strings(stops@)[i],
            None => forall|i: int| 0 <= i < stops@.len() ==> !contains_bytes(seq@, #[trigger] byte_strings(stops@)[i]),
        },
{
    let mut i: usize = 0;
    while i < stops.len()
        invariant
            i <= stops@.len(),
            forall|j: int| 0 <= j < i ==> !contains_bytes(seq@, #[trigger] byte_strings(stops@)[j]),
        decreases stops@.len() - i,
    {
        let s = &stops[i];
        assert(byte_strings(stops@)[i as int] == s@);
        if find_bytes(seq, s.as_slice()).is_some() {
            assert(is_first_stop(seq@, byte_strings(stops@), i as int));
            return Some(vstd::slice::slice_to_vec(s.as_slice()));
        }
        i = i + 1;
    }
    None
}


/// Whether the tail of `seq` is the first `i` bytes of `stop`.
fn ends_with_stop_part(seq: &[u8], stop: &[u8], i: usize) -> (r: bool)
    requires
        1 <= i <= stop@.len(),
    ensures
        r == (i <= seq@.len() && seq@.subrange(seq@.len() - i, seq@.len() as int) == stop@.subrange(0, i as int)),
{
    if i > seq.len() {
        return false;
    }
    let base = seq.len() - i;
    let mut j: usize = 0;
    while j < i
        invariant
            j <= i,
            i <= stop@.len(),
            base + i == seq.len(),
            forall|t: int| 0 <= t < j ==> seq@[base + t] == stop@[t],
        decreases i - j,
    {
        if seq[base + j] != stop[j] {
            assert(seq@.subrange(base as int, seq@.len() as int)[j as int] != stop@.subrange(0, i as int)[j as int]);
            return false;
        }
        j = j + 1;
    }
    assert(seq@.subrange(base as int, seq@.len() as int) =~= stop@.subrange(0, i as int));
    true
}

/// Reports whether the tail of `seq` equals a prefix of any stop sequence,
/// i.e. `seq` may be partway through a stop that completes in a later piece.
pub fn contains_stop_suffix(seq: &[u8], stops: &[Vec<u8>]) -> (r: bool)
    ensures
        r == exists|k: int| 0 <= k < stops@.len() && ends_with_stop_prefix(seq@, #[trigger] byte_strings(stops@)[k]),
{
    let mut k: usize = 0;
    while k < stops.len()
        invariant
            k <= stops@.len(),
            forall|t: int| 0 <= t < k ==> !ends_with_stop_prefix(seq@, #[trigger] byte_strings(stops@)[t]),
        decreases stops@.len() - k,
    {
        let stop = stops[k].as_slice();
        assert(byte_strings(stops@)[k as int] == stop@);
        let mut i: usize = 0;
        while i < stop.len()
            invariant
                i <= stop@.len(),
                k < stops@.len(),
                byte_strings(stops@)[k as int] == stop@,
                forall|t: int| 1 <= t <= i ==> !(t <= seq@.len() && #[trigger] seq@.subrange(seq@.len() - t, seq@.len() as int) == stop@.subrange(0, t)),
            decreases stop@.len() - i,
        {
            if ends_with_stop_part(seq, stop, i + 1) {
                assert(seq@.subrange(seq@.len() - (i + 1), seq@.len() as int) == stop@.subrange(0, i + 1));
                assert(ends_with_stop_prefix(seq@, byte_strings(stops@)[k as int]));
                assert(exists|k2: int| 0 <= k2 < stops@.len() && ends_with_stop_prefix(seq@, #[trigger] byte_strings(stops@)[k2]));
                return true;
            }
            i = i + 1;
        }
        k = k + 1;
    }
    false
}

/// Byte offset, within the concatenation of `pieces`, at which piece `k` starts.
pub open spec fn piece_offset(pieces: Seq<Seq<u8>>, k: int) -> int {
    concat_all(pieces.subrange(0, k)).len() as int
}

/// The pieces kept by `truncate_stop` when the stop begins at byte `idx` of
/// the joined text: every piece that starts before `idx`, each cut back to
/// end no later than `idx` and passed through `decode_lossy` (so a piece
/// that is valid UTF-8 is kept byte for byte); the flag
/// reports that the last kept piece was cut short.
pub open spec fn truncated_at(
    pieces: Seq<Seq<u8>>,
    idx: int,
    kept: Seq<Seq<u8>>,
    truncated: bool,
) -> bool {
    let joined = concat_all(pieces);
    let m = kept.len() as int;
    &&& m <= pieces.len()
    &&& forall|k: int| 0 <= k < m ==> #[trigger] piece_offset(pieces, k) < idx
    &&& (m == pieces.len() || piece_offset(pieces, m) >= idx)
    &&& forall|k: int|
        0 <= k < m ==> #[trigger] kept[k] == decode_lossy(
            joined.subrange(
                piece_offset(pieces, k),
                if piece_offset(pieces, k + 1) < idx { piece_offset(pieces, k + 1) } else { idx },
            ),
        )
    &&& truncated == (m > 0 && piece_offset(pieces, m) > idx)
}

proof fn lemma_offset_step(pieces: Seq<Seq<u8>>, k: int)
    requires
        0 <= k < pieces.len(),
    ensures
        concat_all(pieces.subrange(0, k + 1)) == concat_all(pieces.subrange(0, k)) + pieces[k],
        piece_offset(pieces, k + 1) == piece_offset(pieces, k) + pieces[k].len(),
{
    assert(pieces.subrange(0, k + 1).drop_last() =~= pieces.subrange(0, k));
}

/// Every piece prefix is a prefix of the whole concatenation.
proof fn lemma_offset_prefix(pieces: Seq<Seq<u8>>, k: int)
    requires
        0 <= k <= pieces.len(),
    ensures
        concat_all(pieces) == concat_all(pieces.subrange(0, k)) + concat_all(pieces.subrange(k, pieces.len() as int)),
    decreases pieces.len() - k,
{
    if k == pieces.len() {
        assert(pieces.subrange(0, k) =~= pieces);
        assert(pieces.subrange(k, pieces.len() as int) =~= Seq::<Seq<u8>>::empty());
        assert(concat_all(pieces.subrange(k, pieces.len() as int)) =~= Seq::<u8>::empty());
    } else {
        lemma_offset_prefix(pieces, k + 1);
        lemma_offset_step(pieces, k);
        lemma_concat_first(pieces.subrange(k, pieces.len() as int));
        assert(pieces.subrange(k, pieces.len() as int).drop_first() =~= pieces.subrange(k + 1, pieces.len() as int));
    }
}

/// Concatenation peels off its first piece.
pub proof fn lemma_concat_first(pieces: Seq<Seq<u8>>)
    requires
        pieces.len() > 0,
    ensures
        concat_all(pieces) == pieces[0] + concat_all(pieces.drop_first()),
    decreases pieces.len(),
{
    if pieces.len() == 1 {
        assert(pieces.drop_last() =~= Seq::<Seq<u8>>::empty());
        assert(pieces.drop_first() =~= Seq::<Seq<u8>>::empty());
        assert(concat_all(pieces.drop_last()) =~= Seq::<u8>::empty());
        assert(concat_all(pieces) =~= pieces[0]);
    } else {
        lemma_concat_first(pieces.drop_last());
        assert(pieces.drop_last().drop_first() =~= pieces.drop_first().drop_last());
        assert(concat_all(pieces) =~= pieces[0] + concat_all(pieces.drop_first()));
    }
}

/// Removes the first occurrence of `stop` (and everything after it) from the
/// concatenation of `pieces`, returning the surviving pieces and whether the
/// last surviving piece had to be cut short.
pub fn truncate_stop(pieces: &[Vec<u8>], stop: &[u8]) -> (r: (Vec<Vec<u8>>, bool))
    ensures
        contains_bytes(concat_all(byte_strings(pieces@)), stop@) ==> exists|idx: int|
            is_first_occurrence(concat_all(byte_strings(pieces@)), stop@, idx)
                && truncated_at(byte_strings(pieces@), idx, byte_strings(r.0@), r.1),
        !contains_bytes(concat_all(byte_strings(pieces@)), stop@) ==> byte_strings(r.0@) == byte_strings(pieces@) && !r.1,
{
    let ghost pv = byte_strings(pieces@);
    let joined = concat_pieces(pieces);
    let idx = match find_bytes(joined.as_slice(), stop) {
        Some(i) => i,
        None => {
            let mut same: Vec<Vec<u8>> = Vec::new();
            let mut k: usize = 0;
            while k < pieces.len()
                invariant
                    k <= pieces@.len(),
                    pv == byte_strings(pieces@),
                    byte_strings(same@) == pv.subrange(0, k as int),
                    same@.len() == k,
                decreases pieces@.len() - k,
            {
                assert(pv[k as int] == pieces@[k as int]@);
                let copy = vstd::slice::slice_to_vec(pieces[k].as_slice());
                let ghost old_same = same@;
                same.push(copy);
                assert(same@ == old_same.push(copy));
                assert forall|t: int| 0 <= t < k + 1 implies #[trigger] byte_strings(same@)[t] == pv.subrange(0, k + 1)[t] by {
                    if t < k {
                        assert(byte_strings(old_same)[t] == pv.subrange(0, k as int)[t]);
                        assert(same@[t] == old_same[t]);
                    } else {
                        assert(same@[t] == copy);
                        assert(copy@ == pieces@[k as int]@);
                    }
                }
                assert(byte_strings(same@) =~= pv.subrange(0, k + 1));
                k = k + 1;
            }
            assert(pv.subrange(0, pieces@.len() as int) =~= pv);
            return (same, false);
        },
    };
    proof {
        lemma_offset_prefix(pv, pv.len() as int);
        assert(pv.subrange(0, pv.len() as int) =~= pv);
    }
    let mut result: Vec<Vec<u8>> = Vec::new();
    let mut truncated = false;
    let mut start: usize = 0;
    let mut k: usize = 0;
    while k < pieces.len()
        invariant_except_break
            k <= pieces@.len(),
            pv == byte_strings(pieces@),
            joined@ == concat_all(pv),
            is_first_occurrence(joined@, stop@, idx as int),
            idx <= joined@.len(),
            start <= idx,
            start as int == piece_offset(pv, k as int),
            result@.len() == k,
            !truncated,
            forall|t: int| 0 <= t < k ==> #[trigger] piece_offset(pv, t) < idx,
            forall|t: int|
                0 <= t < k ==> #[trigger] byte_strings(result@)[t] == decode_lossy(
                    joined@.subrange(
                        piece_offset(pv, t),
                        if piece_offset(pv, t + 1) < idx { piece_offset(pv, t + 1) } else { idx as int },
                    ),
                ),
        ensures
            truncated_at(pv, idx as int, byte_strings(result@), truncated),
        decreases pieces@.len() - k,
    {
        if start >= idx {
            assert(truncated_at(pv, idx as int, byte_strings(result@), truncated));
            break;
        }
        proof {
            lemma_offset_step(pv, k as int);
            lemma_offset_prefix(pv, k + 1);
            assert(pv[k as int] == pieces@[k as int]@);
        }
        let plen = pieces[k].len();
        let mut end: usize;
        if plen > idx - start {
            end = idx;
            truncated = true;
        } else {
            end = start + plen;
        }
        let part = lossy_bytes(vstd::slice::slice_subrange(joined.as_slice(), start, end));
        let ghost old_result = byte_strings(result@);
        result.push(part);
        assert(byte_strings(result@) =~= old_result.push(part@));
        start = end;
        k = k + 1;
        if truncated {
            assert(truncated_at(pv, idx as int, byte_strings(result@), truncated));
            break;
        }
    }
    (result, truncated)
}

/// The lead byte `c` starts a sequence of more than `i` bytes, per its
/// high bits (2-, 3- or 4-byte forms).
pub open spec fn lead_wants_more(c: u8, i: int) -> bool {
    if c & 0xe0 == 0xc0 {
        i < 2
    } else if c & 0xf0 == 0xe0 {
        i < 3
    } else if c & 0xf8 == 0xf0 {
        i < 4
    } else {
        false
    }
}

/// The trailing bytes of `b` form a truncated multi-byte UTF-8 character:
/// the last byte that is not a continuation byte, looking back at most four
/// bytes, is a lead byte announcing more bytes than follow it.
pub open spec fn is_incomplete_utf8(b: Seq<u8>) -> bool {
    exists|i: int|
        1 <= i < 5 && i <= b.len() && (#[trigger] b[b.len() - i]) & 0xc0 != 0x80 && (forall|j: int|
            1 <= j < i ==> (#[trigger] b[b.len() - j]) & 0xc0 == 0x80) && lead_wants_more(b[b.len() - i], i)
}

/// Reports whether the trailing bytes of `token` form an incomplete
/// (truncated) multibyte UTF-8 character.
pub fn incomplete_unicode(token: &[u8]) -> (r: bool)
    ensures
        r == is_incomplete_utf8(token@),
{
    let n = token.len();
    let mut i: usize = 1;
    while i < 5 && i <= n
        invariant
            1 <= i <= 5,
            n == token@.len(),
            forall|j: int| 1 <= j < i ==> (#[trigger] token@[n - j]) & 0xc0 == 0x80,
        decreases 5 - i,
    {
        let c = token[n - i];
        if c & 0xc0 == 0x80 {
            i = i + 1;
            continue;
        }
        let incomplete = if c & 0xe0 == 0xc0 {
            i < 2
        } else if c & 0xf0 == 0xe0 {
            i < 3
        } else if c & 0xf8 == 0xf0 {
            i < 4
        } else {
            false
        };
        proof {
            if !incomplete {
                assert forall|i2: int|
                    1 <= i2 < 5 && i2 <= token@.len() && (#[trigger] token@[token@.len() - i2]) & 0xc0 != 0x80
                        && (forall|j: int| 1 <= j < i2 ==> (#[trigger] token@[token@.len() - j]) & 0xc0 == 0x80)
                    implies !lead_wants_more(token@[token@.len() - i2], i2) by {
                    if i2 < i {
                    } else if i2 > i {
                        assert(token@[token@.len() - i] & 0xc0 == 0x80);
                    }
                }
            }
        }
        return incomplete;
    }
    proof {
        assert forall|i2: int|
            1 <= i2 < 5 && i2 <= token@.len() && (#[trigger] token@[token@.len() - i2]) & 0xc0 != 0x80
            implies !(forall|j: int| 1 <= j < i2 ==> (#[trigger] token@[token@.len() - j]) & 0xc0 == 0x80) || !lead_wants_more(token@[token@.len() - i2], i2) by {
            assert(i2 < i);
        }
    }
    false
}

/// The byte classes of UTF-8, read off the high bits.
proof fn lemma_utf8_byte_classes(x: u8)
    ensures
        (x & 0xc0 == 0x80) == (0x80 <= x && x <= 0xbf),
        (x & 0xe0 == 0xc0) == (0xc0 <= x && x <= 0xdf),
        (x & 0xf0 == 0xe0) == (0xe0 <= x && x <= 0xef),
        (x & 0xf8 == 0xf0) == (0xf0 <= x && x <= 0xf7),
{
    assert((x & 0xc0 == 0x80) == (0x80 <= x && x <= 0xbf)) by (bit_vector);
    assert((x & 0xe0 == 0xc0) == (0xc0 <= x && x <= 0xdf)) by (bit_vector);
    assert((x & 0xf0 == 0xe0) == (0xe0 <= x && x <= 0xef)) by (bit_vector);
    assert((x & 0xf8 == 0xf0) == (0xf0 <= x && x <= 0xf7)) by (bit_vector);
}

/// Law: a text that ends in a byte that is not a UTF-8 continuation byte,
/// followed by at most three continuation bytes, ends inside an unfinished
/// character exactly when that byte is the lead byte of a 2-, 3- or 4-byte
/// UTF-8 sequence and fewer than the one, two or three continuation bytes
/// it announces follow it. (A lone lead byte at the end is always held.)
pub proof fn lemma_incomplete_utf8_tail(prefix: Seq<u8>, lead: u8, conts: Seq<u8>)
    requires
        !is_continuation_byte(lead),
        conts.len() <= 3,
        forall|i: int| 0 <= i < conts.len() ==> is_continuation_byte(#[trigger] conts[i]),
    ensures
        is_incomplete_utf8(prefix + seq![lead] + conts) <==> {
            ||| is_leading_byte_width_2(lead) && conts.len() < 1
            ||| is_leading_byte_width_3(lead) && conts.len() < 2
            ||| is_leading_byte_width_4(lead) && conts.len() < 3
        },
{
    let b = prefix + seq![lead] + conts;
    let n = b.len() as int;
    let k = conts.len() as int;
    assert(b[n - (k + 1)] == lead);
    assert forall|j: int| 1 <= j <= k implies (#[trigger] b[n - j]) & 0xc0 == 0x80 by {
        assert(b[n - j] == conts[k - j]);
        lemma_utf8_byte_classes(conts[k - j]);
    }
    lemma_utf8_byte_classes(lead);
    if is_incomplete_utf8(b) {
        let i = choose|i: int|
            1 <= i < 5 && i <= b.len() && (#[trigger] b[b.len() - i]) & 0xc0 != 0x80 && (forall|j: int|
                1 <= j < i ==> (#[trigger] b[b.len() - j]) & 0xc0 == 0x80) && lead_wants_more(b[b.len() - i], i);
        if i <= k {
            assert(b[n - i] & 0xc0 == 0x80);
        } else if i > k + 1 {
            assert(b[n - (k + 1)] & 0xc0 == 0x80);
        }
        assert(i == k + 1);
    }
    if is_leading_byte_width_2(lead) && k < 1 || is_leading_byte_width_3(lead) && k < 2 || is_leading_byte_width_4(
        lead,
    ) && k < 3 {
        assert(lead_wants_more(b[n - (k + 1)], k + 1));
        assert(b[n - (k + 1)] & 0xc0 != 0x80);
        assert(is_incomplete_utf8(b));
    }
}

} // verus!
