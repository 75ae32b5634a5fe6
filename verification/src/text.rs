//! Byte-level text helpers shared by the streaming filter, the GGUF reader
//! and the logit-bias parser: substring search, concatenation, lossy UTF-8
//! decoding and decimal integer parsing.

use vstd::prelude::*;
use vstd::utf8::*;

verus! {

/// `needle` occurs in `hay` starting at byte `k`.
pub open spec fn occurs_at(hay: Seq<u8>, needle: Seq<u8>, k: int) -> bool {
    &&& 0 <= k
    &&& k + needle.len() <= hay.len()
    &&& hay.subrange(k, k + needle.len()) == needle
}

/// `needle` is a (contiguous) byte substring of `hay`.
pub open spec fn contains_bytes(hay: Seq<u8>, needle: Seq<u8>) -> bool {
    exists|k: int| occurs_at(hay, needle, k)
}

/// `k` is the lowest position at which `needle` occurs in `hay`.
pub open spec fn is_first_occurrence(hay: Seq<u8>, needle: Seq<u8>, k: int) -> bool {
    &&& occurs_at(hay, needle, k)
    &&& forall|j: int| 0 <= j < k ==> !occurs_at(hay, needle, j)
}

/// `prefix` is a byte prefix of `s`.
pub open spec fn starts_with_bytes(s: Seq<u8>, prefix: Seq<u8>) -> bool {
    prefix.len() <= s.len() && s.subrange(0, prefix.len() as int) == prefix
}

/// The byte contents of each owned byte string.
pub open spec fn byte_strings(v: Seq<Vec<u8>>) -> Seq<Seq<u8>> {
    Seq::new(v.len(), |i: int| v[i]@)
}

/// Concatenation of a sequence of byte strings.
pub open spec fn concat_all(pieces: Seq<Seq<u8>>) -> Seq<u8>
    decreases pieces.len(),
{
    if pieces.len() == 0 {
        Seq::empty()
    } else {
        concat_all(pieces.drop_last()) + pieces.last()
    }
}

/// Whether `needle` matches `hay` at position `k` (which must leave room for it).
pub fn matches_at(hay: &[u8], needle: &[u8], k: usize) -> (r: bool)
    requires
        k + needle.len() <= hay.len(),
    ensures
        r == occurs_at(hay@, needle@, k as int),
{
    let mut i: usize = 0;
    while i < needle.len()
        invariant
            i <= needle.len(),
            k + needle.len() <= hay.len(),
            forall|j: int| 0 <= j < i ==> hay@[k + j] == needle@[j],
        decreases needle@.len() - i,
    {
        if hay[k + i] != needle[i] {
            assert(hay@.subrange(k as int, k + needle@.len())[i as int] != needle@[i as int]);
            return false;
        }
        i = i + 1;
    }
    assert(hay@.subrange(k as int, k + needle@.len()) =~= needle@);
    true
}

/// Returns the lowest byte position at which `needle` occurs in `hay`
/// (0 for an empty needle), or `None` if it does not occur.
pub fn find_bytes(hay: &[u8], needle: &[u8]) -> (r: Option<usize>)
    ensures
        match r {
            Some(k) => is_first_occurrence(hay@, needle@, k as int),
            None => !contains_bytes(hay@, needle@),
        },
{
    if needle.len() > hay.len() {
        return None;
    }
    let last = hay.len() - needle.len();
    let mut k: usize = 0;
    while k <= last
        invariant
            last + needle@.len() == hay@.len(),
            k <= last + 1,
            forall|j: int| 0 <= j < k ==> !occurs_at(hay@, needle@, j),
        decreases last + 1 - k,
    {
        if matches_at(hay, needle, k) {
            return Some(k);
        }
        if k == last {
            return None;
        }
        k = k + 1;
    }
    None
}

/// Concatenates byte strings.
pub fn concat_pieces(pieces: &[Vec<u8>]) -> (r: Vec<u8>)
    ensures
        r@ == concat_all(byte_strings(pieces@)),
{
    let mut out: Vec<u8> = Vec::new();
    let mut i: usize = 0;
    while i < pieces.len()
        invariant
            i <= pieces@.len(),
            out@ == concat_all(byte_strings(pieces@).subrange(0, i as int)),
        decreases pieces@.len() - i,
    {
        let ghost before = out@;
        let p = &pieces[i];
        let mut j: usize = 0;
        while j < p.len()
            invariant
                j <= p@.len(),
                out@ == before + p@.subrange(0, j as int),
            decreases p@.len() - j,
        {
            out.push(p[j]);
            j = j + 1;
            assert(p@.subrange(0, j as int) =~= p@.subrange(0, j - 1).push(p@[j - 1]));
        }
        assert(p@.subrange(0, p@.len() as int) =~= p@);
        assert(byte_strings(pieces@).subrange(0, i + 1).drop_last() =~= byte_strings(pieces@).subrange(
            0,
            i as int,
        ));
        i = i + 1;
    }
    assert(byte_strings(pieces@).subrange(0, pieces@.len() as int) =~= byte_strings(pieces@));
    out
}

/// Name for what `String::from_utf8_lossy` gives back for the given bytes, as
/// UTF-8 bytes (invalid sequences replaced by U+FFFD).
pub uninterp spec fn utf8_lossy(bytes: Seq<u8>) -> Seq<u8>;

/// What `String::from_utf8_lossy` gives back for `bytes`, as UTF-8 bytes:
/// the bytes themselves when they are valid UTF-8, else `utf8_lossy`.
pub open spec fn decode_lossy(bytes: Seq<u8>) -> Seq<u8> {
    if valid_utf8(bytes) {
        bytes
    } else {
        utf8_lossy(bytes)
    }
}

/// A byte string of ASCII bytes only is valid UTF-8.
pub proof fn lemma_ascii_valid_utf8(bytes: Seq<u8>)
    requires
        forall|i: int| 0 <= i < bytes.len() ==> #[trigger] bytes[i] <= 0x7f,
    ensures
        valid_utf8(bytes),
    decreases bytes.len(),
{
    if bytes.len() > 0 {
        let b = bytes[0];
        assert((b & 0x7f) as u32 <= 0x7f) by (bit_vector);
        let rest = pop_first_scalar(bytes);
        assert(rest =~= bytes.subrange(1, bytes.len() as int));
        lemma_ascii_valid_utf8(rest);
    }
}

/// Decodes `bytes` with `String::from_utf8_lossy`. The contract says that
/// the UTF-8 encoding of the result is `utf8_lossy` of the input, and that
/// valid UTF-8 passes through unchanged (as std documents); how invalid
/// sequences are replaced is left unsaid.
#[verifier::external_body]
pub(crate) fn lossy_string(bytes: &[u8]) -> (r: String)
    ensures
        encode_utf8(r@) == utf8_lossy(bytes@),
        valid_utf8(bytes@) ==> encode_utf8(r@) == bytes@,
{
    String::from_utf8_lossy(bytes).into_owned()
}

/// UTF-8 bytes of `String::from_utf8_lossy(bytes)`.
pub(crate) fn lossy_bytes(bytes: &[u8]) -> (r: Vec<u8>)
    ensures
        r@ == decode_lossy(bytes@),
{
    let s = lossy_string(bytes);
    let b = s.as_str().as_bytes();
    vstd::slice::slice_to_vec(b)
}

/// ASCII decimal digit.
pub open spec fn is_digit(c: u8) -> bool {
    48 <= c <= 57
}

/// Value of a run of decimal digits.
pub open spec fn digits_value(s: Seq<u8>) -> int
    decreases s.len(),
{
    if s.len() == 0 {
        0
    } else {
        digits_value(s.drop_last()) * 10 + (s.last() - 48)
    }
}

/// Every byte is an ASCII digit.
pub open spec fn all_digits(d: Seq<u8>) -> bool {
    forall|i: int| 0 <= i < d.len() ==> is_digit(#[trigger] d[i])
}

/// The text starts with a sign character.
pub open spec fn has_sign(s: Seq<u8>) -> bool {
    s.len() > 0 && (s[0] == 45 || s[0] == 43)
}

/// The text after an optional sign.
pub open spec fn digit_part(s: Seq<u8>) -> Seq<u8> {
    if has_sign(s) {
        s.subrange(1, s.len() as int)
    } else {
        s
    }
}

/// What `str::parse::<i64>` accepts: an optional `+` or `-`, then at least
/// one ASCII digit and nothing else, with the value in the `i64` range.
pub open spec fn spec_parse_i64(s: Seq<u8>) -> Option<i64> {
    let digits = digit_part(s);
    let v = if has_sign(s) && s[0] == 45 { -digits_value(digits) } else { digits_value(digits) };
    if digits.len() == 0 || !all_digits(digits) || !(i64::MIN <= v <= i64::MAX) {
        None
    } else {
        Some(v as i64)
    }
}

proof fn lemma_digits_step(s: Seq<u8>, i: int)
    requires
        0 <= i < s.len(),
    ensures
        digits_value(s.subrange(0, i + 1)) == digits_value(s.subrange(0, i)) * 10 + (s[i] - 48),
{
    assert(s.subrange(0, i + 1).drop_last() =~= s.subrange(0, i));
}

/// Appending digits never lowers the value.
proof fn lemma_digits_grow(s: Seq<u8>, i: int)
    requires
        0 <= i <= s.len(),
        forall|k: int| 0 <= k < s.len() ==> is_digit(#[trigger] s[k]),
    ensures
        digits_value(s.subrange(0, i)) <= digits_value(s),
        0 <= digits_value(s.subrange(0, i)),
    decreases s.len() - i,
{
    if i == s.len() {
        assert(s.subrange(0, i) =~= s);
        lemma_digits_nonneg(s);
    } else {
        lemma_digits_step(s, i);
        lemma_digits_grow(s, i + 1);
        lemma_digits_nonneg(s.subrange(0, i));
        assert forall|k: int| 0 <= k < i implies is_digit(#[trigger] s.subrange(0, i)[k]) by {
            assert(s.subrange(0, i)[k] == s[k]);
        }
    }
}

proof fn lemma_digits_nonneg(s: Seq<u8>)
    requires
        forall|k: int| 0 <= k < s.len() ==> is_digit(#[trigger] s[k]),
    ensures
        0 <= digits_value(s),
    decreases s.len(),
{
    if s.len() > 0 {
        assert forall|k: int| 0 <= k < s.drop_last().len() implies is_digit(#[trigger] s.drop_last()[k]) by {
            assert(s.drop_last()[k] == s[k]);
        }
        lemma_digits_nonneg(s.drop_last());
    }
}

/// Parses a decimal `i64` the way `str::parse::<i64>` does.
pub fn parse_i64(s: &[u8]) -> (r: Option<i64>)
    ensures
        r == spec_parse_i64(s@),
{
    let signed = s.len() > 0 && (s[0] == 45 || s[0] == 43);
    let neg = signed && s[0] == 45;
    let digits = if signed { vstd::slice::slice_subrange(s, 1, s.len()) } else { s };
    assert(digits@ == if signed { s@.subrange(1, s@.len() as int) } else { s@ });
    if digits.len() == 0 {
        return None;
    }
    let limit: u128 = if neg { 0x8000_0000_0000_0000 } else { 0x7fff_ffff_ffff_ffff };
    let mut acc: u128 = 0;
    let mut i: usize = 0;
    while i < digits.len()
        invariant
            i <= digits@.len(),
            signed == has_sign(s@),
            neg == (signed && s@[0] == 45),
            digits@ == digit_part(s@),
            limit == if neg { 0x8000_0000_0000_0000u128 } else { 0x7fff_ffff_ffff_ffffu128 },
            acc <= limit,
            limit <= 0x8000_0000_0000_0000,
            acc == digits_value(digits@.subrange(0, i as int)),
            forall|k: int| 0 <= k < i ==> is_digit(#[trigger] digits@[k]),
        decreases digits@.len() - i,
    {
        let c = digits[i];
        if !(48 <= c && c <= 57) {
            assert(!is_digit(digits@[i as int]));
            assert(!all_digits(digits@));
            assert(spec_parse_i64(s@) is None);
            return None;
        }
        proof {
            lemma_digits_step(digits@, i as int);
        }
        acc = acc * 10 + (c - 48) as u128;
        if acc > limit {
            proof {
                if all_digits(digits@) {
                    lemma_digits_grow(digits@, i + 1);
                    assert(digits_value(digits@) > limit);
                }
                assert(spec_parse_i64(s@) is None);
            }
            return None;
        }
        i = i + 1;
    }
    assert(digits@.subrange(0, digits@.len() as int) =~= digits@);
    if neg {
        if acc == 0x8000_0000_0000_0000 {
            Some(i64::MIN)
        } else {
            Some(-(acc as i64))
        }
    } else {
        Some(acc as i64)
    }
}

} // verus!
